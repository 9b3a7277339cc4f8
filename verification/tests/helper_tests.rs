use http_server::color_table::Color;
use http_server::helper::{
    convert_to_bytes, decimal_bytes, end_header, image_placements, index_to_pos, log, make_header,
    make_image_header, make_json_header, make_not_found_header, make_ok_header, Bitmap, Placement,
};

#[test]
fn ok_header_bytes() {
    assert_eq!(make_ok_header(), b"HTTP/1.1 200 OK\r\n\r\n".to_vec());
}

#[test]
fn not_found_header_bytes() {
    assert_eq!(make_not_found_header(), b"HTTP/1/1 404 NOT FOUND\r\n\r\n".to_vec());
}

#[test]
fn json_header_bytes() {
    assert_eq!(
        make_json_header(),
        b"HTTP/1.1 200 OK\r\n\r\nContent-Type:application/json;charset=UTF-8\r\n\r\n".to_vec()
    );
}

#[test]
fn image_header_bytes() {
    assert_eq!(
        make_image_header(1234),
        b"HTTP/1.1 200 OK\r\n\r\nContent-Length:1234\r\nContent-Type:image/png\r\n\r\n".to_vec()
    );
    assert_eq!(
        make_image_header(0),
        b"HTTP/1.1 200 OK\r\n\r\nContent-Length:0\r\nContent-Type:image/png\r\n\r\n".to_vec()
    );
}

#[test]
fn make_header_copies_status_line() {
    assert_eq!(make_header(b"abc"), b"abc".to_vec());
    assert_eq!(make_header(b""), Vec::<u8>::new());
}

#[test]
fn end_header_appends_line_break() {
    assert_eq!(end_header(b"X: y\r\n".to_vec()), b"X: y\r\n\r\n".to_vec());
}

#[test]
fn decimal_bytes_match_format() {
    for n in [0usize, 7, 10, 99, 100, 65535, 1234567, usize::MAX] {
        assert_eq!(decimal_bytes(n), format!("{}", n).into_bytes());
    }
}

#[test]
fn index_to_pos_column_major() {
    assert_eq!(index_to_pos(0, 3), (0, 0));
    assert_eq!(index_to_pos(4, 3), (1, 1));
    assert_eq!(index_to_pos(8, 3), (2, 2));
    // the index is taken as a u32
    assert_eq!(index_to_pos((1usize << 32) + 5, 3), (1, 2));
}

#[test]
fn log_accepts_a_line() {
    log(String::from("a line"));
}

fn bitmap(width: u32, height: u32, pixels: Vec<Color>) -> Bitmap {
    Bitmap { width, height, pixels }
}

#[test]
fn convert_small_image() {
    let a = Color(1, 2, 3);
    let b = Color(4, 5, 6);
    let c = Color(7, 8, 9);
    // two columns of two rows: (0,0)=a (0,1)=b (1,0)=a (1,1)=c
    let img = bitmap(2, 2, vec![a, b, a, c]);
    let bytes = convert_to_bytes(&img);
    assert_eq!(bytes, vec![1, 2, 3, 4, 5, 6, 7, 8, 9, 0x01, 0x02]);
}

#[test]
fn convert_drops_odd_last_pixel() {
    let a = Color(1, 1, 1);
    let b = Color(2, 2, 2);
    let img = bitmap(1, 3, vec![a, b, b]);
    assert_eq!(convert_to_bytes(&img), vec![1, 1, 1, 2, 2, 2, 0x01]);
}

fn sixteen_colors() -> Vec<Color> {
    (0..16u8).map(|i| Color(i, 2 * i, 3 * i)).collect()
}

#[test]
fn placements_read_table_and_nibbles() {
    let colors = sixteen_colors();
    let mut bytes = Vec::new();
    for c in &colors {
        bytes.extend_from_slice(&c.to_u8());
    }
    bytes.push(0x1f);
    bytes.push(0xa0);
    let ps = image_placements(&bytes, 3);
    assert_eq!(
        ps,
        vec![
            Placement { x: 0, y: 0, color: colors[1] },
            Placement { x: 0, y: 1, color: colors[15] },
            Placement { x: 0, y: 2, color: colors[10] },
            Placement { x: 1, y: 0, color: colors[0] },
        ]
    );
}

#[test]
fn placements_of_header_only() {
    let bytes = vec![0u8; 48];
    assert_eq!(image_placements(&bytes, 5), Vec::<Placement>::new());
}

#[test]
fn image_round_trip_sixteen_colors() {
    let colors = sixteen_colors();
    // 4 columns of 8 rows, every color twice
    let mut pixels = Vec::new();
    for k in 0..32usize {
        pixels.push(colors[(k * 7) % 16]);
    }
    let img = bitmap(4, 8, pixels.clone());
    let bytes = convert_to_bytes(&img);
    assert_eq!(bytes.len(), 48 + 16);
    let ps = image_placements(&bytes, 8);
    assert_eq!(ps.len(), 32);
    for (k, p) in ps.iter().enumerate() {
        assert_eq!(p.color, pixels[k]);
        assert_eq!(p.x as usize, k / 8);
        assert_eq!(p.y as usize, k % 8);
    }
}

#[test]
fn positions_invert_to_storage_index() {
    for k in 0..40usize {
        let (x, y) = index_to_pos(k, 7);
        assert_eq!(x * 7 + y, k);
        assert!(y < 7);
    }
}
