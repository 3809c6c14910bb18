use alinio::table::{Align, Table};

fn rows(data: &[&[&str]]) -> Vec<Vec<String>> {
    data.iter().map(|r| r.iter().map(|s| s.to_string()).collect()).collect()
}

#[test]
fn test_table() {
    // Test simple table rendering with various alignments
    let mut table = Table::new(
        rows(&[
            &["Title", "Artist", "Year"],
            &["Once in a Lifetime", "Talking Heads", "1981"],
        ]),
        40,
    );
    assert_eq!(
        table.render().unwrap(),
        vec![
            "Title                Artist         Year".to_string(),
            "Once in a Lifetime   Talking Heads  1981".to_string()
        ]
    );
    table.set_alignment(Align::Right);
    assert_eq!(
        table.render().unwrap(),
        vec![
            "             Title          Artist  Year".to_string(),
            "Once in a Lifetime   Talking Heads  1981".to_string()
        ]
    );
    table.set_alignment(Align::Center);
    assert_eq!(
        table.render().unwrap(),
        vec![
            "      Title             Artist      Year".to_string(),
            "Once in a Lifetime   Talking Heads  1981".to_string()
        ]
    );
    // Test surround and non-surround tables
    table.set_surround(true);
    table.set_alignment(Align::Left);
    assert_eq!(
        table.render().unwrap(),
        vec![
            "  Title              Artist        Year ".to_string(),
            "  Once in a Lifetime Talking Heads 1981 ".to_string(),
        ]
    );
    table.set_alignment(Align::Right);
    assert_eq!(
        table.render().unwrap(),
        vec![
            "               Title        Artist Year ".to_string(),
            "  Once in a Lifetime Talking Heads 1981 ".to_string()
        ]
    );
    table.set_alignment(Align::Right);
    assert_eq!(
        table.render().unwrap(),
        vec![
            "               Title        Artist Year ".to_string(),
            "  Once in a Lifetime Talking Heads 1981 ".to_string(),
        ]
    );
    // Test not enough space: with no priorities set, every column has the
    // lowest priority, so the leftmost columns are evicted first and only
    // the Year column survives.
    table.set_space(10);
    assert_eq!(
        table.render(),
        Some(vec!["   Year   ".to_string(), "   1981   ".to_string()]),
    );
    table.set_surround(false);
    assert_eq!(
        table.render(),
        Some(vec!["Year      ".to_string(), "1981      ".to_string()]),
    );
    // Test column collapsing
    table.set_surround(true);
    table.set_priorities(&[2, 0, 1]);
    table.set_space(25);
    assert_eq!(
        table.render().unwrap(),
        vec![
            "              Title Year ".to_string(),
            " Once in a Lifetime 1981 ".to_string(),
        ]
    );
    table.set_space(24);
    assert_eq!(
        table.render().unwrap(),
        vec![
            "                Title   ".to_string(),
            "   Once in a Lifetime   ".to_string(),
        ]
    );
    // Play with empty tables
    let table = Table::new(Vec::new(), 0);
    assert_eq!(table.render(), Some(vec![]));
    let table = Table::new(Vec::new(), 10);
    assert_eq!(table.render(), Some(vec![]));
    let table = Table::new(rows(&[&[], &[]]), 0);
    assert_eq!(table.render(), Some(vec!["".to_string(), "".to_string()]));
    let table = Table::new(rows(&[&[], &[]]), 10);
    assert_eq!(
        table.render(),
        Some(vec!["          ".to_string(), "          ".to_string()])
    );
    let table = Table::new(rows(&[&[]]), 0);
    assert_eq!(table.render(), Some(vec!["".to_string()]));
    let table = Table::new(rows(&[&[]]), 1);
    assert_eq!(table.render(), Some(vec![" ".to_string()]));
    let table = Table::new(rows(&[&[""], &[]]), 100);
    assert_eq!(table.render(), None);
}

#[test]
fn test_partial_table() {
    let table = Table::new(
        rows(&[
            &["Title", "Artist", "Year"],
            &["Once in a Lifetime", "Talking Heads", "1981"],
        ]),
        40,
    );
    assert_eq!(
        table.render_partial(0).unwrap(),
        vec![
            "Title                Artist         Year".to_string(),
            "Once in a Lifetime   Talking Heads  1981".to_string()
        ]
    );
    assert_eq!(
        table.render_partial(1).unwrap(),
        vec!["Once in a Lifetime   Talking Heads  1981".to_string()]
    );
    assert_eq!(table.render_partial(2), Some(vec![]));
    assert_eq!(table.render_partial(3), Some(vec![]));
    // Columns are measured over the remaining rows only: once the wide
    // first row is skipped, the narrow second row defines the widths.
    let table = Table::new(
        rows(&[
            &["Once in a Lifetime", "Talking Heads", "1981"],
            &["Title", "Artist", "Year"],
        ]),
        40,
    );
    assert_eq!(
        table.render_partial(1).unwrap(),
        vec!["Title             Artist            Year".to_string()]
    );
}
