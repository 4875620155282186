use gifterm::filter::{resize_encode, resize_kernel, FilterType};
use gifterm::fit::{fit_target, TargetSize};
use gifterm::frame::{Cell, Frame, RenderFrame, Rgb};
use gifterm::playback::{build_schedule, frame_ops, next_frame, sleep_duration, Emit, Resampler};

#[test]
fn sleep_is_rest_of_delay() {
    assert_eq!(sleep_duration(100_000_000, 30_000_000), 70_000_000);
}

#[test]
fn sleep_is_zero_when_render_overruns() {
    assert_eq!(sleep_duration(10, 20), 0);
    assert_eq!(sleep_duration(10, 10), 0);
    assert_eq!(sleep_duration(0, 0), 0);
}

#[test]
fn frames_cycle() {
    assert_eq!(next_frame(0, 3), 1);
    assert_eq!(next_frame(1, 3), 2);
    assert_eq!(next_frame(2, 3), 0);
    assert_eq!(next_frame(0, 1), 0);
}

#[test]
fn frame_is_written_row_by_row() {
    let c = |v: u8| Cell { fg: Rgb { r: v, g: v, b: v }, bg: Rgb { r: 0, g: 0, b: v } };
    let f = RenderFrame { width: 2, rows: 2, cells: vec![c(1), c(2), c(3), c(4)], delay_ns: 0 };
    assert_eq!(
        frame_ops(&f),
        vec![Emit::Paint(c(1)), Emit::Paint(c(2)), Emit::LineBreak, Emit::Paint(c(3)), Emit::Paint(c(4))]
    );
}

#[test]
fn single_row_has_no_line_break() {
    let c = Cell { fg: Rgb { r: 1, g: 2, b: 3 }, bg: Rgb { r: 4, g: 5, b: 6 } };
    let f = RenderFrame { width: 3, rows: 1, cells: vec![c; 3], delay_ns: 0 };
    assert_eq!(frame_ops(&f), vec![Emit::Paint(c); 3]);
}

#[test]
fn square_source_renders_forty_by_twenty() {
    let to = fit_target(100, 100, 40, 40, false);
    assert_eq!(to, TargetSize { width: 40, height: 40 });
    let src = Frame { width: 100, height: 100, pixels: vec![200; 4 * 100 * 100], delay_ns: 40 };
    for how in [Resampler::Area, Resampler::Kernel(FilterType::Triangle)] {
        let schedule = build_schedule(&vec![src.clone()], to, how);
        assert_eq!(schedule.len(), 1);
        assert_eq!((schedule[0].width, schedule[0].rows), (40, 20));
        assert_eq!(schedule[0].cells.len(), 800);
        assert_eq!(schedule[0].delay_ns, 40);
    }
}

#[test]
fn schedule_keeps_order_and_delays() {
    let red = Frame { width: 4, height: 4, pixels: [255u8, 0, 0, 255].repeat(16), delay_ns: 1 };
    let green = Frame { width: 4, height: 4, pixels: [0u8, 255, 0, 255].repeat(16), delay_ns: 2 };
    let schedule = build_schedule(&vec![red, green], TargetSize { width: 2, height: 2 }, Resampler::Area);
    assert_eq!(schedule.len(), 2);
    let r = Rgb { r: 255, g: 0, b: 0 };
    let g = Rgb { r: 0, g: 255, b: 0 };
    assert_eq!(schedule[0].cells, vec![Cell { fg: r, bg: r }; 2]);
    assert_eq!(schedule[1].cells, vec![Cell { fg: g, bg: g }; 2]);
    assert_eq!((schedule[0].delay_ns, schedule[1].delay_ns), (1, 2));
}

#[test]
fn kernel_resize_changes_size() {
    let f = Frame { width: 4, height: 4, pixels: [10u8, 20, 30, 255].repeat(16), delay_ns: 9 };
    let r = resize_kernel(&f, 2, 2, FilterType::Nearest);
    assert_eq!((r.width, r.height, r.delay_ns), (2, 2, 9));
    assert_eq!(r.pixels, [10u8, 20, 30, 255].repeat(4));
}

#[test]
fn kernel_resize_to_same_size_copies() {
    let pixels: Vec<u8> = (0..36u8).collect();
    let f = Frame { width: 3, height: 3, pixels: pixels.clone(), delay_ns: 0 };
    let r = resize_kernel(&f, 3, 3, FilterType::Lanczos3);
    assert_eq!(r.pixels, pixels);
}

#[test]
fn resize_encode_resizes_every_frame() {
    let a = Frame { width: 6, height: 4, pixels: vec![50; 96], delay_ns: 3 };
    let b = Frame { width: 6, height: 4, pixels: vec![90; 96], delay_ns: 4 };
    let out = resize_encode(&vec![a, b], TargetSize { width: 3, height: 2 }, FilterType::Nearest);
    assert_eq!(out.len(), 2);
    assert_eq!(out[0].pixels, vec![50; 24]);
    assert_eq!(out[1].pixels, vec![90; 24]);
    assert_eq!((out[0].delay_ns, out[1].delay_ns), (3, 4));
}

#[test]
fn filter_names_parse() {
    assert_eq!(FilterType::from_str("nearest"), Ok(FilterType::Nearest));
    assert_eq!(FilterType::from_str("triangle"), Ok(FilterType::Triangle));
    assert_eq!(FilterType::from_str("catmullrom"), Ok(FilterType::CatmullRom));
    assert_eq!(FilterType::from_str("gaussian"), Ok(FilterType::Gaussian));
    assert_eq!(FilterType::from_str("lanczos3"), Ok(FilterType::Lanczos3));
}

#[test]
fn unknown_filter_name_is_rejected() {
    assert_eq!(FilterType::from_str("bilinear"), Err("Invalid filter type"));
    assert_eq!(FilterType::from_str(""), Err("Invalid filter type"));
    assert_eq!(FilterType::from_str("Nearest"), Err("Invalid filter type"));
    assert_eq!(FilterType::from_str("nearest "), Err("Invalid filter type"));
}
