//! The raft: peers from a status or from a made-up tailnet, and the QR code.
use otterm::fleet::{parse_fake, peers, qr_text, tailscale_output, Ask, Peer};
use otterm::qr::{can_weigh_all, weigh};
use qrcode::bits::encode_auto;
use qrcode::canvas::{Canvas, MaskPattern};
use qrcode::ec::construct_codewords;
use qrcode::{EcLevel, QrCode, Version};

fn names(ps: &[Peer]) -> Vec<&str> {
    ps.iter().map(|p| p.name.as_str()).collect()
}

/// The QR we draw must actually scan back to the ssh URI: rendered to pixels
/// and decoded with an independent decoder.
#[test]
fn qr_roundtrip() {
    let content = "ssh://otter@raft-pi.tailnet.ts.net";
    let code = qrcode::QrCode::new(content.as_bytes()).unwrap();
    let w = code.width();
    let colors = code.to_colors();
    let scale = 4usize;
    let quiet = 4 * scale;
    let dim = (w * scale + 2 * quiet) as u32;
    let mut img = image::GrayImage::from_pixel(dim, dim, image::Luma([255]));
    for y in 0..w {
        for x in 0..w {
            if colors[y * w + x] == qrcode::Color::Dark {
                for dy in 0..scale {
                    for dx in 0..scale {
                        img.put_pixel(
                            (quiet + x * scale + dx) as u32,
                            (quiet + y * scale + dy) as u32,
                            image::Luma([0]),
                        );
                    }
                }
            }
        }
    }
    let mut prepared = rqrr::PreparedImage::prepare(img);
    let grids = prepared.detect_grids();
    assert_eq!(grids.len(), 1);
    let (_, decoded) = grids[0].decode().unwrap();
    assert_eq!(decoded, content);
}

/// The half-block picture that the raft shows scans back too.
#[test]
fn qr_picture_scans_back() {
    let content = "ssh://otter@raft-pi.tailnet.ts.net";
    let picture = qr_text(content).unwrap();
    let rows: Vec<Vec<char>> = picture.lines().map(|l| l.chars().collect()).collect();
    let w = rows.iter().map(|r| r.len()).max().unwrap();
    let scale = 4usize;
    let mut img = image::GrayImage::from_pixel(
        (w * scale) as u32,
        (rows.len() * 2 * scale) as u32,
        image::Luma([255]),
    );
    for (y, row) in rows.iter().enumerate() {
        for (x, c) in row.iter().enumerate() {
            // A block is dark; half of a cell may be.
            let (top, bottom) = match c {
                '\u{2588}' => (true, true),
                '\u{2580}' => (true, false),
                '\u{2584}' => (false, true),
                _ => (false, false),
            };
            for (half, dark) in [(0usize, top), (1usize, bottom)] {
                if !dark {
                    continue;
                }
                for dy in 0..scale {
                    for dx in 0..scale {
                        img.put_pixel(
                            (x * scale + dx) as u32,
                            ((2 * y + half) * scale + dy) as u32,
                            image::Luma([0]),
                        );
                    }
                }
            }
        }
    }
    let mut prepared = rqrr::PreparedImage::prepare(img);
    let grids = prepared.detect_grids();
    assert_eq!(grids.len(), 1);
    assert_eq!(grids[0].decode().unwrap().1, content);
}

#[test]
fn qr_refuses_what_does_not_fit() {
    let long = "x".repeat(8000);
    assert_eq!(qr_text(&long), Err("data too long".to_owned()));
    assert_eq!(qr_text(&"x".repeat(2332)), Err("data too long".to_owned()));
}

#[test]
fn qr_draws_up_to_the_capacity_of_a_code() {
    let mut n: u64 = 7;
    let mut mixed = String::new();
    for _ in 0..2331 {
        n = n.wrapping_mul(6364136223846793005).wrapping_add(1442695040888963407);
        mixed.push((b'a' + (n >> 33) as u8 % 26) as char);
    }
    assert!(qr_text(&mixed).is_ok());
    assert!(qr_text(&mixed[..201]).is_ok());
    assert!(qr_text("").is_ok());
}

/// Where each bit of the largest code's data goes, as (x, y).
#[allow(deprecated)]
fn places() -> Vec<(usize, usize)> {
    let (data, ec, width) = (2334, 1372, 177);
    let mut index = vec![0usize; width * width];
    let mut seen = vec![false; width * width];
    for bit in 0..15 {
        let byte = |i: usize| (0..8).fold(0u8, |b, k| b << 1 | ((i * 8 + k) >> bit & 1) as u8);
        for flip in [0u8, 255] {
            let mut canvas = Canvas::new(Version::Normal(40), EcLevel::M);
            canvas.draw_all_functional_patterns();
            let fixed = canvas.to_bools();
            let bytes: Vec<u8> = (0..data + ec).map(|i| byte(i) ^ flip).collect();
            canvas.draw_data(&bytes[..data], &bytes[data..]);
            for (at, dark) in canvas.to_bools().into_iter().enumerate() {
                if dark != fixed[at] {
                    seen[at] = true;
                }
                if flip == 0 && dark {
                    index[at] |= 1 << bit;
                }
            }
        }
    }
    let mut places = vec![(0, 0); data * 8];
    for at in 0..width * width {
        if seen[at] && index[at] < data * 8 {
            places[index[at]] = (at % width, at / width);
        }
    }
    places
}

/// A text whose largest code is of one colour over wide areas under the mask
/// `x % 3 == 0`.
fn uniform() -> String {
    let mut raw = vec![0u8; 2334];
    for (at, bits) in places().chunks(8).enumerate() {
        let mut word = bits.iter().fold(0u8, |w, &(x, _)| w << 1 | (x % 3 != 0) as u8);
        if word & 8 != 0 {
            word = !word;
        }
        let (i, block) = if at < 47 * 49 { (at / 49, at % 49) } else { (47, 18 + at - 47 * 49) };
        let start = if block < 18 { block * 47 } else { 846 + (block - 18) * 48 };
        raw[start + i] = word;
    }
    let nibbles: Vec<u8> = raw.iter().flat_map(|b| [b >> 4, b & 15]).collect();
    let text = (0..2331).map(|t| nibbles[2 * t + 5] << 4 | nibbles[2 * t + 6]).collect();
    String::from_utf8(text).unwrap()
}

#[test]
fn qr_refuses_what_cannot_be_weighed() {
    assert_eq!(qr_text(&uniform()), Err("data too uniform".to_owned()));
}

#[test]
#[allow(deprecated)]
fn the_lightest_mask_is_the_one_drawn() {
    let masks = [
        MaskPattern::Checkerboard,
        MaskPattern::HorizontalLines,
        MaskPattern::VerticalLines,
        MaskPattern::DiagonalLines,
        MaskPattern::LargeCheckerboard,
        MaskPattern::Fields,
        MaskPattern::Diamonds,
        MaskPattern::Meadow,
    ];
    for n in [0, 1, 17, 60, 123, 214, 399, 700, 1100, 1700, 2331] {
        let text: String = "ssh://otter@pi-den.tail1234.ts.net/".chars().cycle().take(n).collect();
        let bits = encode_auto(text.as_bytes(), EcLevel::M).unwrap();
        let version = bits.version();
        let (data, ec) = construct_codewords(&bits.into_bytes(), version, EcLevel::M).unwrap();
        let mut plain = Canvas::new(version, EcLevel::M);
        plain.draw_all_functional_patterns();
        plain.draw_data(&data, &ec);
        let width = version.width() as usize;
        let codes = masks.map(|mask| {
            let mut code = plain.clone();
            code.apply_mask(mask);
            code.to_bools()
        });
        let lightest = codes.iter().min_by_key(|code| weigh(code, width).unwrap()).unwrap();
        assert_eq!(*lightest, QrCode::new(&text).unwrap().to_vec(), "{n} bytes");
        assert!(qr_text(&text).is_ok());
    }
}

/// A code of version 1 under the mask `(x + y) % 2 == 0`.
const MASKED: &str = "\
#######.##....#######
#.....#.#..#..#.....#
#.###.#.#..##.#.###.#
#.###.#.#.....#.###.#
#.###.#.#.#...#.###.#
#.....#...#...#.....#
#######.#.#.#.#######
........#............
.##.#.##....#.#.#####
.#......####....#...#
..##.###.##...#.##...
.##.##.#..##.#.#.###.
#...#.#.#.###.###.#.#
........##.#..#...#.#
#######.#.#....#.##..
#.....#..#.##.##.#...
#.###.#.#.#...#######
#.###.#..#.#.#.#...#.
#.###.#.#...####.#..#
#.....#.#.##.#...#.##
#######.....####....#
";

#[test]
fn masks_are_weighed() {
    let code: Vec<bool> = MASKED.chars().filter(|c| *c != '\n').map(|c| c == '#').collect();
    // Runs 88 across and 92 down, squares 90, finders 0 and 40, imbalance 2.
    assert_eq!(weigh(&code, 21), Some(312));
    // No finder at all, which no code lacks.
    assert_eq!(weigh(&vec![true; 441], 21), None);
    assert!(can_weigh_all(&vec![code.clone(), code.clone()], 21));
    assert!(!can_weigh_all(&vec![code, vec![false; 441]], 21));
}

#[test]
fn a_code_that_weighs_too_much_is_told() {
    // The finders of version 40 in a field that is all dark but for their
    // light borders.
    let width = 177;
    let mut code = vec![true; width * width];
    for (x0, y0) in [(0, 0), (width - 7, 0), (0, width - 7)] {
        for y in 0..width {
            for x in 0..width {
                let (dx, dy) = (x as i32 - x0 as i32 - 3, y as i32 - y0 as i32 - 3);
                let ring = dx.abs().max(dy.abs());
                if ring == 2 || (ring > 3 && ring < 8) {
                    code[y * width + x] = false;
                }
            }
        }
    }
    assert_eq!(weigh(&code, width), None);
    assert!(!can_weigh_all(&vec![code], width));
}

#[test]
fn fake_peers_parse() {
    let peers = parse_fake("pi-den=100.64.0.7;pi-attic=100.64.0.8,offline");
    assert_eq!(peers.len(), 2);
    assert!(peers[0].online && !peers[1].online);
    assert_eq!(peers[1].name, "pi-attic");
}

#[test]
fn fake_peers_skip_what_has_no_address() {
    let peers = parse_fake(";nothing;a=1,online;b=2=3,offline,x");
    assert_eq!(names(&peers), ["a", "b"]);
    assert_eq!(peers[0].ip, "1");
    assert!(peers[0].online && !peers[0].is_self);
    assert_eq!(peers[1].addr, "2=3");
    assert_eq!(peers[1].os, "linux");
    assert!(!peers[1].online);
}

#[test]
fn ssh_names_the_user() {
    let p = &parse_fake("pi=10.0.0.2")[0];
    assert_eq!(p.ssh_target(&Some("otter".into())), "otter@10.0.0.2");
    assert_eq!(p.ssh_uri(&None), "ssh://root@10.0.0.2");
}

#[test]
fn status_is_read_in_raft_order() {
    let status = br#"{
        "Self": {"HostName": "den", "DNSName": "den.tail.ts.net.", "TailscaleIPs": ["100.1.1.1"], "OS": "linux"},
        "Peer": {
            "k1": {"HostName": "zebra", "DNSName": "", "TailscaleIPs": ["100.1.1.2", "fd7a::2"], "OS": "macOS", "Online": true},
            "k2": {"HostName": "attic", "DNSName": "attic.tail.ts.net.", "TailscaleIPs": [], "OS": "linux", "Online": false},
            "k3": {"HostName": "bay", "DNSName": "bay.tail.ts.net.", "Online": true},
            "k4": {"DNSName": "nameless.tail.ts.net.", "Online": true},
            "k5": {"HostName": 7, "Online": true}
        }
    }"#;
    let ps = peers(status).unwrap();
    assert_eq!(names(&ps), ["den", "bay", "zebra", "attic"]);
    assert!(ps[0].is_self && ps[0].online);
    assert_eq!(ps[0].addr, "den.tail.ts.net");
    assert_eq!(ps[2].addr, "100.1.1.2");
    assert_eq!(ps[2].ip, "100.1.1.2");
    assert_eq!(ps[2].os, "macOS");
    assert_eq!(ps[3].ip, "");
    assert!(!ps[3].online);
}

#[test]
fn status_without_nodes_is_an_empty_raft() {
    assert!(peers(b"{}").unwrap().is_empty());
    assert!(peers(b"{\"Self\": {}, \"Peer\": null}").unwrap().is_empty());
    assert!(peers(b"[1, 2.5, \"x\", true]").unwrap().is_empty());
}

#[test]
fn status_that_is_no_json_is_an_error() {
    let e = match peers(b"not json") {
        Ok(_) => panic!("read as a status"),
        Err(e) => e,
    };
    assert_eq!(e, "expected ident at line 1 column 2");
}

#[test]
fn tailscale_is_looked_for_twice() {
    assert!(matches!(tailscale_output(0, None), Ask::Try("tailscale")));
    assert!(matches!(
        tailscale_output(1, Some((false, b"noise".to_vec()))),
        Ask::Try("/Applications/Tailscale.app/Contents/MacOS/Tailscale")
    ));
    match tailscale_output(2, None) {
        Ask::Failed(e) => assert_eq!(
            e,
            "tailscale not found or not running — is the tailnet up?"
        ),
        _ => panic!("went on"),
    }
    match tailscale_output(1, Some((true, b"{}".to_vec()))) {
        Ask::Answer(bytes) => assert_eq!(bytes, b"{}"),
        _ => panic!("did not take the answer"),
    }
}
