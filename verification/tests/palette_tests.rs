use innovus::palette::parse_gpl;

fn ok_lines(list: &[&str]) -> Vec<Result<String, String>> {
    list.iter().map(|s| Ok(s.to_string())).collect()
}

#[test]
fn gpl_reads_name_and_colors_in_order() {
    let lines = ok_lines(&[
        "GIMP Palette",
        "Name: Sunset",
        "Columns: 4",
        "#",
        "255   0  10\tred",
        "  0 128 +255 blue",
        "300 1 1 too bright",
        "1 2",
        "007 8 9",
    ]);
    let palette = parse_gpl(&lines).unwrap();
    assert_eq!(palette.name, "Sunset");
    assert_eq!(palette.colors, vec![(255, 0, 10), (0, 128, 255), (7, 8, 9)]);
}

#[test]
fn gpl_last_name_line_wins() {
    let lines = ok_lines(&["GIMP Palette", "Name: First", "Name: Second", "Name: "]);
    let palette = parse_gpl(&lines).unwrap();
    assert_eq!(palette.name, "");
    assert!(palette.colors.is_empty());
}

#[test]
fn gpl_without_name_is_unnamed() {
    let lines = ok_lines(&["GIMP Palette", "1 1 1"]);
    let palette = parse_gpl(&lines).unwrap();
    assert_eq!(palette.name, "");
    assert_eq!(palette.colors, vec![(1, 1, 1)]);
}

#[test]
fn gpl_rejects_wrong_header() {
    let expected = Err("first line of palette must be 'GIMP Palette'".to_string());
    assert_eq!(parse_gpl(&ok_lines(&["GIMP palette", "1 2 3"])).map(|p| p.colors), expected);
    assert_eq!(parse_gpl(&ok_lines(&[" GIMP Palette"])).map(|p| p.colors), expected);
    assert_eq!(parse_gpl(&Vec::new()).map(|p| p.colors), expected);
}

#[test]
fn gpl_stops_at_first_read_error() {
    let lines = vec![
        Ok("GIMP Palette".to_string()),
        Ok("1 2 3".to_string()),
        Err("stream broke".to_string()),
        Err("later".to_string()),
    ];
    assert_eq!(parse_gpl(&lines).map(|p| p.colors), Err("stream broke".to_string()));
    let first = vec![Err("unreadable".to_string())];
    assert_eq!(parse_gpl(&first).map(|p| p.colors), Err("unreadable".to_string()));
}

#[test]
fn gpl_signs_and_words() {
    let lines = ok_lines(&["GIMP Palette", "-1 2 3", "+ 2 3", "1 2 3x", "+0 +0 +0"]);
    let palette = parse_gpl(&lines).unwrap();
    assert_eq!(palette.colors, vec![(0, 0, 0)]);
}
