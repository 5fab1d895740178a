use sita::extract::px::Px;

#[test]
fn an_empty_cell_reads_as_black() {
    let px = Px::new();

    assert_eq!(px.lightness(), 0);
    assert_eq!(px.average(), [0, 0, 0]);
}

#[test]
fn it_averages_the_pixels_it_was_given() {
    let mut px = Px::new();

    px.add(0, 0, 0);
    px.add(100, 200, 40);

    assert_eq!(px.average(), [50, 100, 20]);
    // Lightness of the average color: (max 100 + min 20) / 2.
    assert_eq!(px.lightness(), 60);
}

#[test]
fn averages_round_down() {
    let mut px = Px::new();

    px.add(1, 2, 255);
    px.add(0, 1, 254);
    px.add(0, 0, 254);

    assert_eq!(px.average(), [0, 1, 254]);
    // (max 763 + min 1) / (2 * 3) = 127
    assert_eq!(px.lightness(), 127);
}

#[test]
fn the_first_running_sum_reads_each_channel() {
    let mut px = sita::px::Px::new();

    px.add_px(10, 20, 30);
    px.add_px(30, 40, 50);

    assert_eq!(px.avg_r(), 20);
    assert_eq!(px.avg_g(), 30);
    assert_eq!(px.avg_b(), 40);
    // (max 80 + min 40) / (2 * 2)
    assert_eq!(px.get_ligthness(), 30);
}

#[test]
fn the_first_command_line_takes_input_then_output() {
    let words = vec!["sita".to_string(), "in.png".to_string(), "out.png".to_string(), "extra".to_string()];
    let args = sita::input::Args::from_arg_list(&words);

    assert_eq!(args.scale, 10);
    assert_eq!(args.input_file_path, "in.png");
    assert_eq!(args.output_file_path, "out.png");
}

#[test]
fn a_uniform_region_reads_as_its_own_color() {
    for k in [1u32, 2, 3, 64] {
        let mut px = Px::new();
        for _ in 0..k {
            px.add(200, 10, 75);
        }
        assert_eq!(px.average(), [200, 10, 75]);
        assert_eq!(px.lightness(), ((200u32 + 10) / 2) as u8);
    }

    let mut odd = Px::new();
    for _ in 0..5 {
        odd.add(1, 2, 0);
    }
    assert_eq!(odd.average(), [1, 2, 0]);
    assert_eq!(odd.lightness(), 1);
}
