use rtop::logo::{first_file, parse_ascii_logo, scale_ascii_logo, select_logo_mode, AsciiCell, LogoMode};

fn c(ch: char, color: Option<u8>) -> AsciiCell {
    AsciiCell { ch, color_index: color }
}

#[test]
fn logo_markers_and_trimming() {
    let logo = parse_ascii_logo("$1ab\n  $$c\n").unwrap();
    assert_eq!((logo.width, logo.height), (4, 2));
    assert_eq!(logo.cells[0], vec![c('a', Some(1)), c('b', Some(1)), c(' ', None), c(' ', None)]);
    assert_eq!(logo.cells[1], vec![c(' ', None), c(' ', None), c('$', None), c('c', None)]);
}

#[test]
fn logo_cut_to_visible_box() {
    let logo = parse_ascii_logo("\n  ab \n   \n").unwrap();
    assert_eq!((logo.width, logo.height), (2, 1));
    assert_eq!(logo.cells, vec![vec![c('a', None), c('b', None)]]);
}

#[test]
fn logo_colour_zero_and_lone_dollar() {
    let logo = parse_ascii_logo("$0x$").unwrap();
    assert_eq!(logo.cells, vec![vec![c('x', None), c('$', None)]]);
    let reset = parse_ascii_logo("$1a$0b").unwrap();
    assert_eq!(reset.cells, vec![vec![c('a', Some(1)), c('b', None)]]);
    let colors = parse_ascii_logo("$2a\nb").unwrap();
    assert_eq!(colors.cells, vec![vec![c('a', Some(2))], vec![c('b', None)]]);
}

#[test]
fn blank_logo_is_none() {
    assert!(parse_ascii_logo("").is_none());
    assert!(parse_ascii_logo("   \n  \n").is_none());
    assert!(parse_ascii_logo("$1$2").is_none());
}

#[test]
fn logo_scaled_and_centred() {
    let logo = parse_ascii_logo("ab").unwrap();
    let canvas = scale_ascii_logo(&logo, 4, 3, (4, 2));
    let a = c('a', None);
    let b = c('b', None);
    let blank = c(' ', None);
    assert_eq!(canvas, vec![vec![a, a, b, b], vec![a, a, b, b], vec![blank; 4]]);
    let small = scale_ascii_logo(&logo, 6, 1, (2, 1));
    assert_eq!(small, vec![vec![blank, blank, a, b, blank, blank]]);
    assert_eq!(scale_ascii_logo(&logo, 0, 2, (0, 0)), vec![Vec::<AsciiCell>::new(), Vec::new()]);
}

#[test]
fn logo_mode_choice() {
    assert_eq!(select_logo_mode(true, true, LogoMode::Svg), Some(LogoMode::Svg));
    assert_eq!(select_logo_mode(true, false, LogoMode::Svg), Some(LogoMode::Ascii));
    assert_eq!(select_logo_mode(false, true, LogoMode::Ascii), Some(LogoMode::Svg));
    assert_eq!(select_logo_mode(false, false, LogoMode::Ascii), None);
}

#[test]
fn first_logo_file() {
    let names: Vec<String> = ["b.svg", ".hidden.svg", "a.SVG", "c.png"].iter().map(|s| s.to_string()).collect();
    assert_eq!(first_file(&names, Some("svg")), Some(2));
    assert_eq!(first_file(&names, None), Some(2));
    let only_png: Vec<String> = vec!["x.png".to_string(), "svg".to_string()];
    assert_eq!(first_file(&only_png, Some("svg")), None);
    let text: Vec<String> = vec!["logo.txt".to_string(), "arch".to_string()];
    assert_eq!(first_file(&text, None), Some(1));
}
