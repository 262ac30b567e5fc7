use pingtool::host::Host;
use pingtool::render::host_cells;
use pingtool::render::render_frame;
use pingtool::render::render_table;
use pingtool::render::u64_to_dec;
use pingtool::render::Style;

#[test]
fn decimal_rendering() {
    assert_eq!(u64_to_dec(0), "0");
    assert_eq!(u64_to_dec(7), "7");
    assert_eq!(u64_to_dec(10), "10");
    assert_eq!(u64_to_dec(1000), "1000");
    assert_eq!(u64_to_dec(90_500), "90500");
    assert_eq!(u64_to_dec(u64::MAX), "18446744073709551615");
}

#[test]
fn header_row_contents() {
    let hosts: Vec<Host> = Vec::new();
    let rows = render_table(&hosts);
    assert_eq!(rows.len(), 2);
    let header: Vec<&str> = rows[0].iter().map(|c| c.text.as_str()).collect();
    assert_eq!(header, ["NAME", "ADDRESS", "AVG", "MIN", "MAX", "CURRENT"]);
    assert!(rows[0].iter().all(|c| c.style == Style::Plain));
    assert!(rows[1].iter().all(|c| c.text.is_empty()));
}

#[test]
fn unknown_address_placeholder() {
    let h = Host::new(String::from("a"));
    let row = host_cells(&h);
    assert_eq!(row[1].text, "<unknown>");
}

#[test]
fn values_truncated_to_milliseconds() {
    let mut h = Host::new(String::from("a"));
    h.set_address(String::from("192.0.2.1"));
    // 90.5 ms and 12.345 ms truncate to 90 and 12.
    h.push_value(90_500);
    h.push_value(12_345);
    h.calculate();
    let row = host_cells(&h);
    assert_eq!(row[0].text, "a");
    assert_eq!(row[0].style, Style::Name);
    assert_eq!(row[1].text, "192.0.2.1");
    assert_eq!(row[2].text, "51"); // avg of 90.5 and 12.345 is 51.4225
    assert_eq!(row[3].text, "12");
    assert_eq!(row[4].text, "90");
    assert_eq!(row[5].text, "12");
    assert_eq!(row[5].style, Style::Current);
}

#[test]
fn render_width_independence() {
    // Hosts with names of differing lengths and a mix of known and
    // unknown addresses; styled and unstyled cells in every row.
    let mut a = Host::new(String::from("a"));
    let mut long = Host::new(String::from("a.much.longer.host.name"));
    a.push_value(1_234_000);
    a.calculate();
    long.set_address(String::from("198.51.100.7"));
    long.push_value(9_000);
    long.calculate();
    let hosts = vec![a, long];
    let frame = render_frame(&hosts);
    assert_eq!(frame.len(), 4);
    for row in &frame {
        assert_eq!(row.len(), 6);
    }
    for j in 0..6 {
        let w = frame[0][j].text.chars().count();
        for row in &frame {
            assert_eq!(row[j].text.chars().count(), w);
        }
    }
    // Styling is an annotation layer: the host rows carry the accents.
    for row in &frame[2..] {
        assert_eq!(row[0].style, Style::Name);
        assert_eq!(row[5].style, Style::Current);
        assert_eq!(row[1].style, Style::Plain);
    }
}

#[test]
fn aligned_texts_keep_their_prefix() {
    let mut h = Host::new(String::from("ab"));
    h.push_value(5_000);
    h.calculate();
    let hosts = vec![h];
    let frame = render_frame(&hosts);
    // Column 0 is as wide as the header "NAME": the name is padded.
    assert_eq!(frame[2][0].text, "ab  ");
    // The header itself is untouched.
    assert_eq!(frame[0][0].text, "NAME");
}
