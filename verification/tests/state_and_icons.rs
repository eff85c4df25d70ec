use std::io::Cursor;

use shuffle::icons::{icon_jobs, icon_pixels, swap_red_blue, ICON_SIZE};
use shuffle::persist::{config_dir, config_file, home_dir, read_path_list, saved_dir, username, write_path_list};
use shuffle::workspace::{Entry, Tab, Workspace};

fn entry(name: &str, is_dir: bool) -> Entry {
    Entry { name: name.to_string(), is_dir, size: 0, modified: None }
}

#[test]
fn home_and_user() {
    assert_eq!(home_dir(Some("/Users/me".to_string())), "/Users/me");
    assert_eq!(home_dir(None), "/");
    assert_eq!(username(Some("guz".to_string()), "/Users/me"), "guz");
    assert_eq!(username(Some(String::new()), "/Users/me"), "me");
    assert_eq!(username(None, "/"), "Home");
}

#[test]
fn config_paths() {
    assert_eq!(config_dir("/Users/me"), "/Users/me/Library/Application Support/Shuffle");
    assert_eq!(config_file("/Users/me", "recents.txt"), "/Users/me/Library/Application Support/Shuffle/recents.txt");
    assert_eq!(saved_dir("  /Users/me/src\n"), "/Users/me/src");
}

#[test]
fn path_lists_round_trip() {
    let paths = vec!["/Users/me".to_string(), "/tmp/a b".to_string(), "/Volumes/X".to_string()];
    let text = write_path_list(&paths);
    assert_eq!(text, "/Users/me\n/tmp/a b\n/Volumes/X");
    assert_eq!(read_path_list(&text), paths);
    assert_eq!(write_path_list(&Vec::new()), "");
    assert!(read_path_list("").is_empty());
}

#[test]
fn path_lists_skip_blank_lines_and_trim() {
    let read = read_path_list("\n  /a  \r\n\n/b\n   \n");
    assert_eq!(read, vec!["/a".to_string(), "/b".to_string()]);
}

#[test]
fn red_and_blue_trade_places() {
    let raw = vec![1, 2, 3, 4, 5, 6, 7, 8, 9, 10];
    let bgra = swap_red_blue(raw.clone());
    assert_eq!(bgra, vec![3, 2, 1, 4, 7, 6, 5, 8, 9, 10]);
    assert_eq!(swap_red_blue(bgra), raw);
}

#[test]
fn icons_decode_scale_and_swap() {
    let mut img = image::RgbaImage::new(2, 2);
    for p in img.pixels_mut() {
        *p = image::Rgba([200, 10, 30, 255]);
    }
    let mut bytes = Cursor::new(Vec::new());
    image::DynamicImage::ImageRgba8(img).write_to(&mut bytes, image::ImageFormat::Tiff).unwrap();
    let px = icon_pixels(bytes.get_ref()).expect("a TIFF decodes");
    assert_eq!((px.width, px.height), (ICON_SIZE, ICON_SIZE));
    assert_eq!(px.bgra.len(), (4 * ICON_SIZE * ICON_SIZE) as usize);
    // Resampling a flat color may move a channel by a unit; the order is what counts.
    assert!((28..=32).contains(&px.bgra[0]));
    assert!((8..=12).contains(&px.bgra[1]));
    assert!((198..=202).contains(&px.bgra[2]));
    assert!(px.bgra[3] >= 253);
    assert!(icon_pixels(b"not an image").is_none());
}

#[test]
fn icon_jobs_cover_each_new_file_type_once() {
    let mut w = Workspace::new(
        Tab::new(
            "/a".to_string(),
            vec![entry("d", true), entry("x.PDF", false), entry("y.pdf", false), entry("z.txt", false), entry("README", false)],
            (),
        ),
        Vec::new(),
        Vec::new(),
    );
    let j = icon_jobs(&w, &vec!["txt".to_string()], false);
    assert_eq!(j.jobs, vec![("pdf".to_string(), "/a/x.PDF".to_string())]);
    assert!(j.folder);
    assert!(!icon_jobs(&w, &Vec::new(), true).folder);
    w.refresh_pane(0, vec![entry("m.md", false)]);
    let j = icon_jobs(&w, &Vec::new(), false);
    assert_eq!(j.jobs, vec![("md".to_string(), "/a/m.md".to_string())]);
    assert!(!j.folder);
}
