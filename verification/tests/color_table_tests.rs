use http_server::color_table::{Color, ColorTable, Data};

#[test]
fn new_table_is_empty() {
    let ct = ColorTable::new();
    assert_eq!(ct.output_file_header(), Vec::<u8>::new());
}

#[test]
fn color_to_u8_gives_channels() {
    let c = Color::new(10, 20, 30);
    assert_eq!(c, Color(10, 20, 30));
    assert_eq!(c.to_u8(), [10, 20, 30]);
}

#[test]
fn color_to_rgb_keeps_channels() {
    let c = Color::new(1, 128, 255);
    let p = c.to_rgb();
    assert_eq!(p.0, [1, 128, 255]);
    assert_eq!(p, image::Rgb([1u8, 128, 255]));
}

#[test]
fn push_and_get() {
    let mut ct = ColorTable::new();
    ct.push(Color(1, 2, 3));
    ct.push(Color(4, 5, 6));
    assert_eq!(ct.get(0), Color(1, 2, 3));
    assert_eq!(ct.get(1), Color(4, 5, 6));
}

#[test]
fn has_finds_first_index() {
    let mut ct = ColorTable::new();
    ct.push(Color(1, 1, 1));
    ct.push(Color(2, 2, 2));
    ct.push(Color(1, 1, 1));
    assert_eq!(ct.has(&Color(1, 1, 1)), Some(0));
    assert_eq!(ct.has(&Color(2, 2, 2)), Some(1));
    assert_eq!(ct.has(&Color(3, 3, 3)), None);
}

#[test]
fn has_finds_index_255() {
    let mut ct = ColorTable::new();
    for i in 0..300u32 {
        ct.push(Color((i % 256) as u8, (i / 256) as u8, 7));
    }
    assert_eq!(ct.has(&Color(255, 0, 7)), Some(255));
    assert_eq!(ct.has(&Color(0, 0, 7)), Some(0));
}

#[test]
fn push_if_unique_adds_new_colors_once() {
    let mut ct = ColorTable::new();
    assert_eq!(ct.push_if_unique(&Color(9, 9, 9)), 0);
    assert_eq!(ct.push_if_unique(&Color(8, 8, 8)), 1);
    assert_eq!(ct.push_if_unique(&Color(9, 9, 9)), 0);
    assert_eq!(ct.push_if_unique(&Color(8, 8, 8)), 1);
    assert_eq!(ct.output_file_header(), vec![9, 9, 9, 8, 8, 8]);
}

#[test]
fn push_if_unique_twice_is_idempotent() {
    let mut ct = ColorTable::new();
    ct.push(Color(1, 2, 3));
    let first = ct.push_if_unique(&Color(4, 5, 6));
    let header = ct.output_file_header();
    let second = ct.push_if_unique(&Color(4, 5, 6));
    assert_eq!(first, second);
    assert_eq!(ct.output_file_header(), header);
    assert_eq!(ct.get(first), Color(4, 5, 6));
}

#[test]
fn from_file_header_reads_triples() {
    let ct = ColorTable::from_file_header(vec![1, 2, 3, 4, 5, 6]);
    assert_eq!(ct.get(0), Color(1, 2, 3));
    assert_eq!(ct.get(1), Color(4, 5, 6));
    assert_eq!(ct.has(&Color(7, 8, 9)), None);
}

#[test]
fn from_file_header_ignores_trailing_bytes() {
    let ct = ColorTable::from_file_header(vec![1, 2, 3, 4, 5]);
    assert_eq!(ct.output_file_header(), vec![1, 2, 3]);
    let empty = ColorTable::from_file_header(vec![1, 2]);
    assert_eq!(empty.output_file_header(), Vec::<u8>::new());
}

#[test]
fn header_round_trip() {
    let mut ct = ColorTable::new();
    ct.push(Color(10, 20, 30));
    ct.push(Color(40, 50, 60));
    ct.push(Color(10, 20, 30));
    let bytes = ct.output_file_header();
    assert_eq!(bytes, vec![10, 20, 30, 40, 50, 60, 10, 20, 30]);
    let back = ColorTable::from_file_header(bytes.clone());
    assert_eq!(back.output_file_header(), bytes);
    assert_eq!(back.get(2), Color(10, 20, 30));
}

#[test]
fn data_new_keeps_fields() {
    let d = Data::new(3, 200);
    assert_eq!(d.index, 3);
    assert_eq!(d.value, 200);
}
