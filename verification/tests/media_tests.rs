use autoterm::media::{media_scan_json, stream_window, unsatisfiable_range, MediaEntry, MediaRoot, StreamPlan};

fn entry(id: &str, name: &str, rel_dir: &str, bytes: u64, title: &str, song: &str, artist: &str, size: &str) -> MediaEntry {
    MediaEntry {
        id: id.to_string(),
        name: name.to_string(),
        rel_dir: rel_dir.to_string(),
        relative_path: if rel_dir.is_empty() { name.to_string() } else { format!("{}/{}", rel_dir, name) },
        extension: "mp3".to_string(),
        bytes,
        title: title.to_string(),
        song_title: song.to_string(),
        artist: artist.to_string(),
        size_str: size.to_string(),
    }
}

#[test]
fn scan_without_root_is_an_empty_listing() {
    assert_eq!(media_scan_json(MediaRoot::Unset, &vec![]), "{\"entries\":[],\"root_missing\":false}");
}

#[test]
fn scan_with_missing_root_says_so() {
    let e = vec![entry("x", "x.mp3", "", 1, "x", "x", "", "1 B")];
    assert_eq!(media_scan_json(MediaRoot::Missing, &e), "{\"entries\":[],\"root_missing\":true}");
}

#[test]
fn scan_of_an_empty_root() {
    assert_eq!(media_scan_json(MediaRoot::Present, &vec![]), "{\"entries\":[],\"root_missing\":false}");
}

#[test]
fn scan_lists_entries_in_order() {
    let e = vec![
        entry("a1", "Artist - Song.mp3", "", 2048, "Artist - Song", "Song", "Artist", "2.0 KB"),
        entry("b2", "Tune.mp3", "Live \"93\"", 15, "Tune", "Tune", "", "15 B"),
    ];
    let want: String = [
        "{\"entries\":[",
        "{\"id\":\"a1\",\"index\":1,\"index_str\":\"01\",\"title\":\"Artist - Song\",\"song_title\":\"Song\",",
        "\"artist\":\"Artist\",\"album\":\"本地单曲\",\"is_liked\":false,\"name\":\"Artist - Song.mp3\",",
        "\"rel_dir\":\"\",\"relative_path\":\"Artist - Song.mp3\",\"extension\":\"mp3\",\"bytes\":2048,",
        "\"size_str\":\"2.0 KB\",\"url\":\"/api/media/stream/a1\",\"audio_url\":\"/api/media/stream/a1\",",
        "\"video_url\":\"/api/media/stream/a1\"},",
        "{\"id\":\"b2\",\"index\":2,\"index_str\":\"02\",\"title\":\"Tune\",\"song_title\":\"Tune\",",
        "\"artist\":\"\",\"album\":\"Live \\\"93\\\"\",\"is_liked\":false,\"name\":\"Tune.mp3\",",
        "\"rel_dir\":\"Live \\\"93\\\"\",\"relative_path\":\"Live \\\"93\\\"/Tune.mp3\",\"extension\":\"mp3\",",
        "\"bytes\":15,\"size_str\":\"15 B\",\"url\":\"/api/media/stream/b2\",\"audio_url\":\"/api/media/stream/b2\",",
        "\"video_url\":\"/api/media/stream/b2\"}",
        "],\"root_missing\":false}",
    ]
    .concat();
    assert_eq!(media_scan_json(MediaRoot::Present, &e), want);
}

#[test]
fn tenth_entry_numbers_without_padding() {
    let e: Vec<MediaEntry> = (1..=10).map(|k| entry(&format!("i{}", k), "s.mp3", "d", 1, "s", "s", "", "1 B")).collect();
    let out = media_scan_json(MediaRoot::Present, &e);
    assert!(out.contains("\"id\":\"i9\",\"index\":9,\"index_str\":\"09\""));
    assert!(out.contains("\"id\":\"i10\",\"index\":10,\"index_str\":\"10\""));
    assert_eq!(out.matches("\"is_liked\":false").count(), 10);
}

#[test]
fn stream_windows() {
    assert_eq!(stream_window(StreamPlan::Full, 100), Some((0, 99, 100)));
    assert_eq!(stream_window(StreamPlan::Full, 0), Some((0, 0, 1)), "an empty file still yields one byte of window");
    assert_eq!(stream_window(StreamPlan::Partial(10, 19), 100), Some((10, 19, 10)));
    assert_eq!(stream_window(StreamPlan::Partial(7, 7), 8), Some((7, 7, 1)));
    assert_eq!(stream_window(StreamPlan::Unsatisfiable, 100), None);
}

#[test]
fn refused_range_header() {
    assert_eq!(unsatisfiable_range(1234), "bytes */1234");
    assert_eq!(unsatisfiable_range(0), "bytes */0");
}
