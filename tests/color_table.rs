use mudforge::color::{generate_xterm_color_map, lookup, name_for, parse_code_bytes, xterm_color, ColorCode, Rgb};

fn rgb(r: u8, g: u8, b: u8) -> Rgb {
    Rgb { r, g, b }
}

#[test]
fn lookup_bright_green() {
    assert_eq!(lookup("1;32"), rgb(0, 255, 0));
}

#[test]
fn lookup_xterm_cube_corners() {
    assert_eq!(lookup("38;5;16"), rgb(0, 0, 0));
    assert_eq!(lookup("38;5;231"), rgb(255, 255, 255));
    assert_eq!(lookup("38;5;196"), rgb(255, 0, 0));
    assert_eq!(lookup("38;5;21"), rgb(0, 0, 255));
}

#[test]
fn lookup_unknown_is_white() {
    assert_eq!(lookup("99;99"), rgb(255, 255, 255));
    assert_eq!(lookup("0"), rgb(255, 255, 255));
    assert_eq!(lookup(""), rgb(255, 255, 255));
    assert_eq!(lookup("38;5;256"), rgb(255, 255, 255));
    assert_eq!(lookup("38;5;016"), rgb(255, 255, 255));
}

#[test]
fn lookup_standard_colours() {
    assert_eq!(lookup("0;31"), rgb(128, 0, 0));
    assert_eq!(lookup("0;37"), rgb(192, 192, 192));
    assert_eq!(lookup("1;30"), rgb(128, 128, 128));
    assert_eq!(lookup("1;31"), rgb(255, 0, 0));
    assert_eq!(lookup("0;38"), rgb(255, 255, 255));
}

#[test]
fn grey_ramp() {
    assert_eq!(xterm_color(232), rgb(0, 0, 0));
    assert_eq!(xterm_color(233), rgb(11, 11, 11));
    assert_eq!(xterm_color(255), rgb(255, 255, 255));
    assert_eq!(lookup("38;5;244"), rgb(133, 133, 133));
}

#[test]
fn low_palette_entries_are_black() {
    assert_eq!(xterm_color(0), rgb(0, 0, 0));
    assert_eq!(xterm_color(15), rgb(0, 0, 0));
}

#[test]
fn cube_formula() {
    // 16 + 36*2 + 6*3 + 4 = 110
    assert_eq!(xterm_color(110), rgb(102, 153, 204));
}

#[test]
fn parse_codes() {
    assert_eq!(parse_code_bytes(b"1;35"), Some(ColorCode::Standard { bright: true, hue: 5 }));
    assert_eq!(parse_code_bytes(b"38;5;7"), Some(ColorCode::Xterm { index: 7 }));
    assert_eq!(parse_code_bytes(b"38;5;"), None);
    assert_eq!(parse_code_bytes(b"38;5;1a"), None);
    assert_eq!(parse_code_bytes(b"2;31"), None);
}

#[test]
fn table_has_every_entry_in_order() {
    let table = generate_xterm_color_map();
    assert_eq!(table.len(), 272);
    assert_eq!(table[0], ("0;30".to_string(), rgb(0, 0, 0)));
    assert_eq!(table[9], ("1;31".to_string(), rgb(255, 0, 0)));
    assert_eq!(table[16 + 196], ("38;5;196".to_string(), rgb(255, 0, 0)));
    for (name, colour) in &table {
        assert_eq!(lookup(name), *colour);
    }
}

#[test]
fn reverse_lookup_takes_first_entry() {
    assert_eq!(name_for(rgb(0, 0, 0)), Some(ColorCode::Standard { bright: false, hue: 0 }));
    assert_eq!(name_for(rgb(95, 135, 175)), None);
    assert_eq!(name_for(rgb(51, 102, 153)), Some(ColorCode::Xterm { index: 16 + 36 + 12 + 3 }));
}
