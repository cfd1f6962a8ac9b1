use displayctl::listing::{
    display_mode_info, display_name, display_status, display_table, display_uuid_text, DisplayRow,
    ModeInfo,
};
use displayctl::text::{c_buffer_to_string, c_string_bytes, decimal_string, push_signed_decimal};

fn signed(x: i32) -> String {
    let mut s = String::new();
    push_signed_decimal(&mut s, x);
    s
}

#[test]
fn decimal_numbers() {
    assert_eq!(decimal_string(0), "0");
    assert_eq!(decimal_string(7), "7");
    assert_eq!(decimal_string(10), "10");
    assert_eq!(decimal_string(1920), "1920");
    assert_eq!(decimal_string(u64::MAX), u64::MAX.to_string());
}

#[test]
fn signed_decimal_numbers() {
    assert_eq!(signed(0), "0");
    assert_eq!(signed(1001), "1001");
    assert_eq!(signed(-1), "-1");
    assert_eq!(signed(-1000), "-1000");
    assert_eq!(signed(i32::MIN), i32::MIN.to_string());
    assert_eq!(signed(i32::MAX), i32::MAX.to_string());
}

#[test]
fn c_strings_are_nul_terminated() {
    assert_eq!(c_string_bytes("IODisplayUUID").unwrap(), b"IODisplayUUID\0".to_vec());
    assert_eq!(c_string_bytes("").unwrap(), vec![0u8]);
    assert_eq!(c_string_bytes("é").unwrap(), vec![0xC3, 0xA9, 0]);
    assert_eq!(c_string_bytes("a\0b"), None);
}

#[test]
fn c_buffers_read_up_to_the_nul() {
    assert_eq!(c_buffer_to_string(1, b"hello\0junk"), Some(String::from("hello")));
    assert_eq!(c_buffer_to_string(1, b"\0"), Some(String::new()));
    assert_eq!(c_buffer_to_string(1, "Écran\0".as_bytes()), Some(String::from("Écran")));
    assert_eq!(c_buffer_to_string(0, b"hello\0"), None);
    assert_eq!(c_buffer_to_string(1, &[0xff, 0xfe, 0]), None);
    let mut buffer = vec![0u8; 256];
    buffer[..4].copy_from_slice(b"37D8");
    assert_eq!(c_buffer_to_string(1, &buffer), Some(String::from("37D8")));
}

#[test]
fn status_words() {
    assert_eq!(display_status(true, false), "active");
    assert_eq!(display_status(true, true), "active");
    assert_eq!(display_status(false, true), "mirror");
    assert_eq!(display_status(false, false), "inactive");
}

fn mode(w: usize, h: usize, pw: usize, ph: usize, refresh: Option<u64>) -> ModeInfo {
    ModeInfo { width: w, height: h, pixel_width: pw, pixel_height: ph, refresh_centihertz: refresh }
}

#[test]
fn mode_columns() {
    assert_eq!(
        display_mode_info(None),
        (String::from("-"), String::from("-"), String::from("-"))
    );
    assert_eq!(
        display_mode_info(Some(mode(1440, 900, 2880, 1800, Some(6000)))),
        (String::from("1440x900"), String::from("2880x1800"), String::from("60.00Hz"))
    );
    assert_eq!(
        display_mode_info(Some(mode(1920, 1080, 1920, 1080, Some(6000)))),
        (String::from("1920x1080"), String::from("-"), String::from("60.00Hz"))
    );
    assert_eq!(
        display_mode_info(Some(mode(1920, 1080, 1920, 2160, Some(5994)))),
        (String::from("1920x1080"), String::from("1920x2160"), String::from("59.94Hz"))
    );
    assert_eq!(display_mode_info(Some(mode(800, 600, 800, 600, None))).2, "-");
    assert_eq!(display_mode_info(Some(mode(800, 600, 800, 600, Some(5)))).2, "0.05Hz");
    assert_eq!(display_mode_info(Some(mode(800, 600, 800, 600, Some(14386)))).2, "143.86Hz");
}

#[test]
fn names_and_uuids_fall_back() {
    assert_eq!(display_name(Some(String::from("DELL U2720Q")), false), "DELL U2720Q");
    assert_eq!(display_name(None, true), "Built-in Display");
    assert_eq!(display_name(None, false), "External Display");
    assert_eq!(display_uuid_text(None), "unknown");
    assert_eq!(display_uuid_text(Some(String::from("ABC"))), "ABC");
}

fn readme_rows() -> Vec<DisplayRow> {
    vec![
        DisplayRow::new(
            None,
            true,
            display_status(true, false),
            Some(mode(1440, 900, 2880, 1800, Some(6000))),
            Some(String::from("37D8832A-2D66-02CA-B9F7-8F30A301B230")),
        ),
        DisplayRow::new(
            None,
            false,
            display_status(true, false),
            Some(mode(1920, 1080, 1920, 1080, Some(6000))),
            Some(String::from("E4DB018A-E193-64D6-0857-D6964E3302DB")),
        ),
    ]
}

#[test]
fn listing_matches_readme_example() {
    let lines = display_table(&readme_rows());
    let trimmed: Vec<&str> = lines.iter().map(|l| l.trim_end()).collect();
    assert_eq!(
        trimmed,
        vec![
            "NAME              STATUS  MODE       NATIVE     REFRESH  UUID",
            "Built-in Display  active  1440x900   2880x1800  60.00Hz  37D8832A-2D66-02CA-B9F7-8F30A301B230",
            "External Display  active  1920x1080  -          60.00Hz  E4DB018A-E193-64D6-0857-D6964E3302DB",
        ]
    );
    assert_eq!(
        lines[0],
        format!("{:<16}  {:<6}  {:<9}  {:<9}  {:<7}  {:<36}", "NAME", "STATUS", "MODE", "NATIVE", "REFRESH", "UUID")
    );
}

#[test]
fn listing_of_no_displays_is_empty() {
    assert!(display_table(&Vec::new()).is_empty());
}

#[test]
fn listing_uses_header_widths_as_minimum() {
    let rows = vec![DisplayRow::new(
        Some(String::from("A")),
        false,
        display_status(false, false),
        None,
        None,
    )];
    let lines = display_table(&rows);
    assert_eq!(lines.len(), 2);
    assert_eq!(lines[0], "NAME  STATUS    MODE  NATIVE  REFRESH  UUID   ");
    assert_eq!(lines[1], "A     inactive  -     -       -        unknown");
}

#[test]
fn listing_lines_line_up_with_non_ascii_names() {
    // "Écran" is 6 bytes but 5 characters: the column is 6 bytes wide and
    // each cell is padded to 6 characters, as `{:<6}` does.
    let rows = vec![
        DisplayRow::new(Some(String::from("Écran")), false, "active", None, Some(String::from("U1"))),
        DisplayRow::new(Some(String::from("TV")), false, "mirror", None, Some(String::from("U2"))),
    ];
    let lines = display_table(&rows);
    assert_eq!(lines.len(), 3);
    assert_eq!(lines[1], format!("{:<6}  {:<6}  {:<4}  {:<6}  {:<7}  {:<4}", "Écran", "active", "-", "-", "-", "U1"));
    assert_eq!(lines[2], format!("{:<6}  {:<6}  {:<4}  {:<6}  {:<7}  {:<4}", "TV", "mirror", "-", "-", "-", "U2"));
    let counts: Vec<usize> = lines.iter().map(|l| l.chars().count()).collect();
    assert!(counts.iter().all(|&c| c == counts[0]));
    assert_eq!(counts[0], 6 + 6 + 4 + 6 + 7 + 4 + 10);
}

#[test]
fn c_string_reads_back_as_written() {
    for text in ["37D8832A-2D66-02CA-B9F7-8F30A301B230", "Écran intégré", "", "日本"] {
        let bytes = c_string_bytes(text).unwrap();
        assert_eq!(c_buffer_to_string(1, &bytes), Some(String::from(text)));
    }
}
