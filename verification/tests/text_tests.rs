use media_transcriber::paths::{extension_of, file_name_of, join_path_str};
use media_transcriber::text::{chars_of, lines_of, parse_i32, parse_u64, trim_chars};
use media_transcriber::is_media_file;

fn s(v: &[char]) -> String {
    v.iter().collect()
}

#[test]
fn trim_matches_std() {
    for t in ["  a b  ", "\t\n x \r\n", "", "   ", "\u{3000}\u{4f60}\u{3000}", "a", "\u{85}z\u{a0}"] {
        assert_eq!(s(&trim_chars(&chars_of(t))), t.trim());
    }
}

#[test]
fn lines_match_std() {
    for t in ["foo\nbar\n\r\nbaz\r", "", "\n", "a\n", "a\r\nb", "a\n\nb\n", "x\ry", "\r\n\r\n"] {
        let got: Vec<String> = lines_of(&chars_of(t)).iter().map(|l| s(l)).collect();
        let want: Vec<String> = t.lines().map(|l| l.to_string()).collect();
        assert_eq!(got, want, "lines of {:?}", t);
    }
}

#[test]
fn parse_numbers_match_std() {
    for t in ["0", "+7", "-7", "", "+", "-", "18446744073709551615", "18446744073709551616", "12a", " 1"] {
        assert_eq!(parse_u64(&chars_of(t)), t.parse::<u64>().ok(), "u64 {:?}", t);
    }
    for t in ["0", "+7", "-7", "", "+", "-", "2147483647", "2147483648", "-2147483648", "-2147483649", "44100"] {
        assert_eq!(parse_i32(&chars_of(t)), t.parse::<i32>().ok(), "i32 {:?}", t);
    }
}

#[test]
fn file_name_and_extension_of_windows_paths() {
    let cases: [(&str, Option<&str>, Option<&str>); 25] = [
        ("a/b/c.mp3", Some("c.mp3"), Some("mp3")),
        ("c.MP4", Some("c.MP4"), Some("MP4")),
        ("/", None, None),
        (".", None, None),
        ("..", None, None),
        ("a/..", None, None),
        ("a/.", Some("a"), None),
        ("a//b.wav/", Some("b.wav"), Some("wav")),
        (".bashrc", Some(".bashrc"), None),
        ("x.tar.gz", Some("x.tar.gz"), Some("gz")),
        ("noext", Some("noext"), None),
        ("a.", Some("a."), Some("")),
        ("./v.mkv", Some("v.mkv"), Some("mkv")),
        ("", None, None),
        ("dir/.hidden", Some(".hidden"), None),
        ("a/b.c/d", Some("d"), None),
        ("a\\b.mp4", Some("b.mp4"), Some("mp4")),
        ("a\\.mp4", Some(".mp4"), None),
        ("C:\\Videos\\Clip.MP4", Some("Clip.MP4"), Some("MP4")),
        ("C:", None, None),
        ("C:\\", None, None),
        ("C:clip.wav", Some("clip.wav"), Some("wav")),
        ("D:..", None, None),
        ("dir\\sub/", Some("sub"), None),
        ("\\\\server\\share\\talk.mp3", Some("talk.mp3"), Some("mp3")),
    ];
    for (p, name, ext) in cases {
        assert_eq!(file_name_of(&chars_of(p)).map(|v| s(&v)), name.map(|x| x.to_string()), "file_name {:?}", p);
        assert_eq!(extension_of(&chars_of(p)).map(|v| s(&v)), ext.map(|x| x.to_string()), "extension {:?}", p);
    }
}

#[test]
fn join_of_windows_paths() {
    let cases = [
        ("", "models", "models"),
        ("C:\\res", "models", "C:\\res\\models"),
        ("C:\\res\\", "models", "C:\\res\\models"),
        ("/x/", "models", "/x/models"),
        ("/x", "models", "/x\\models"),
        ("C:", "x", "C:x"),
        ("C:\\res", "\\abs", "C:\\abs"),
        ("res", "/abs", "/abs"),
        ("C:\\res", "D:\\m", "D:\\m"),
        ("x", "", "x\\"),
        ("", "", ""),
    ];
    for (a, b, want) in cases {
        assert_eq!(join_path_str(a, b), want, "join {:?} {:?}", a, b);
    }
}

#[test]
fn media_files_are_recognised_by_extension() {
    assert!(is_media_file("/home/u/talk.MP3"));
    assert!(is_media_file("clip.webm"));
    assert!(is_media_file("movie.M4V"));
    assert!(!is_media_file("notes.txt"));
    assert!(!is_media_file(".mp3"));
    assert!(!is_media_file("mp3"));
    assert!(!is_media_file("folder.mp3/.."));
    assert!(!is_media_file("a\\.mp4"));
    assert!(is_media_file("C:\\Users\\u\\Talk.MP3"));
    assert!(is_media_file("D:clip.wav"));
    assert!(!is_media_file("C:\\clips\\wav"));
}
