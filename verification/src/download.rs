use vstd::prelude::*;
use crate::paths::{file_name, file_name_of};
use crate::text::{
    chars_of, contains, contains_seq, decimal, owned, parse_u64, parse_u64_spec, push_decimal, push_str, string_of,
};

verus! {

/// A `content-length` header read as a size: its value when it is a valid
/// `u64`, else 0.
pub open spec fn length_of(header: Option<Seq<char>>) -> u64 {
    match header {
        Some(h) => match parse_u64_spec(h) {
            Some(v) => v,
            None => 0,
        },
        None => 0,
    }
}

pub fn content_length(header: Option<&str>) -> (r: u64)
    ensures
        r == length_of(match header { Some(h) => Some(h@), None => None }),
{
    match header {
        Some(h) => match parse_u64(&chars_of(h)) {
            Some(v) => v,
            None => 0,
        },
        None => 0,
    }
}

/// What the quick probe download read, when the server gave no size.
pub enum ProbeRead {
    /// The size was known; no probe was made.
    NotNeeded,
    /// The probe read `n` bytes (up to 4); `first` is the first byte of the
    /// probe buffer (0 when nothing was read).
    Bytes { n: usize, first: u8 },
    /// The probe request failed with this message.
    Failed(String),
}

/// How the download proceeds.
pub enum DownloadStart {
    /// The file on disk is already complete.
    AlreadyComplete,
    /// Resume with this `Range` header value.
    Resume(String),
    /// Start from the beginning.
    Fresh,
}

pub open spec fn html_probe_message() -> Seq<char> {
    "Download URL returned HTML instead of binary data. The file may require authentication or the URL may be incorrect."@
}

/// A start as plain values: `None` when the file is complete, else
/// `Some(None)` for a fresh download (no `Range` header, a new file) or
/// `Some(Some(range))` for a resumed one.
pub open spec fn start_view(s: DownloadStart) -> Option<Option<Seq<char>>> {
    match s {
        DownloadStart::AlreadyComplete => None,
        DownloadStart::Resume(r) => Some(Some(r@)),
        DownloadStart::Fresh => Some(None),
    }
}

/// The download decision: a failed probe or a probe that starts with `<`
/// (an HTML page) stops it (an empty probe whose buffer starts with `<`
/// counts as unexpected content); a file on disk at least as large as the known
/// size is complete; a partial file resumes from its size; otherwise the
/// download starts fresh.
pub open spec fn download_plan(existing: u64, total: u64, probe: ProbeRead) -> Result<Option<Option<Seq<char>>>, Seq<char>> {
    match probe {
        ProbeRead::Failed(e) => Err("Failed to connect to download server: "@ + e@),
        ProbeRead::Bytes { n, first } if n > 0 && first == 0x3c => Err(html_probe_message()),
        ProbeRead::Bytes { n, first } if n < 4 && first == 0x3c => Err("Download source returned unexpected content"@),
        _ => if existing > 0 && total > 0 && existing >= total {
            Ok(None)
        } else if existing > 0 {
            Ok(Some(Some("bytes="@ + decimal(existing as nat) + "-"@)))
        } else {
            Ok(Some(None))
        },
    }
}

pub fn plan_download(existing: u64, total: u64, probe: &ProbeRead) -> (r: Result<DownloadStart, String>)
    ensures
        (match r {
            Ok(s) => Ok(start_view(s)),
            Err(e) => Err(e@),
        }) == download_plan(existing, total, *probe),
{
    match probe {
        ProbeRead::Failed(e) => {
            let mut v: Vec<char> = Vec::new();
            push_str(&mut v, "Failed to connect to download server: ");
            push_str(&mut v, e.as_str());
            return Err(string_of(&v));
        },
        ProbeRead::Bytes { n, first } => {
            if *n > 0 && *first == 0x3c {
                return Err(owned(
                    "Download URL returned HTML instead of binary data. The file may require authentication or the URL may be incorrect.",
                ));
            }
            let is_valid = if *n < 4 { *first != 0x3c } else { true };
            if !is_valid {
                return Err(owned("Download source returned unexpected content"));
            }
        },
        ProbeRead::NotNeeded => {},
    }
    if existing > 0 && total > 0 && existing >= total {
        Ok(DownloadStart::AlreadyComplete)
    } else if existing > 0 {
        let mut v: Vec<char> = Vec::new();
        push_str(&mut v, "bytes=");
        push_decimal(&mut v, existing);
        push_str(&mut v, "-");
        Ok(DownloadStart::Resume(string_of(&v)))
    } else {
        Ok(DownloadStart::Fresh)
    }
}

pub open spec fn html_body_message(url: Seq<char>) -> Seq<char> {
    "Server returned HTML instead of file data \u{2014} the download source may require authentication. Please visit "@
        + url + " in your browser to download the file manually."@
}

/// Refuses a response whose content type is HTML.
pub fn check_content_type(content_type: Option<&str>, url: &str) -> (r: Result<(), String>)
    ensures
        (match content_type { Some(c) => contains_seq(c@, "text/html"@), None => contains_seq(seq![], "text/html"@) })
            ==> (r matches Err(e) && e@ == html_body_message(url@)),
        !(match content_type { Some(c) => contains_seq(c@, "text/html"@), None => contains_seq(seq![], "text/html"@) })
            ==> r is Ok,
{
    let ct = match content_type {
        Some(c) => chars_of(c),
        None => Vec::new(),
    };
    if contains(&ct, &chars_of("text/html")) {
        let mut v: Vec<char> = Vec::new();
        push_str(
            &mut v,
            "Server returned HTML instead of file data \u{2014} the download source may require authentication. Please visit ",
        );
        push_str(&mut v, url);
        push_str(&mut v, " in your browser to download the file manually.");
        Err(string_of(&v))
    } else {
        Ok(())
    }
}

/// The size that progress is measured against: the announced size when
/// known, else what is on disk plus the length of this response.
pub fn effective_total(total: u64, existing: u64, content_length: u64) -> (r: u64)
    requires
        total > 0 || existing + content_length <= u64::MAX,
    ensures
        r == (if total > 0 { total as int } else { existing + content_length }),
{
    if total > 0 {
        total
    } else {
        existing + content_length
    }
}

/// The file name shown in download messages: the last component of the
/// output path, or empty.
pub open spec fn shown_name(path: Seq<char>) -> Seq<char> {
    match file_name(path) {
        Some(n) => n,
        None => seq![],
    }
}

pub fn download_file_name(output_path: &str) -> (r: String)
    ensures
        r@ == shown_name(output_path@),
{
    match file_name_of(&chars_of(output_path)) {
        Some(n) => string_of(&n),
        None => String::new(),
    }
}

pub fn already_downloaded_message(name: &str) -> (r: String)
    ensures
        r@ == name@ + " already downloaded"@,
{
    let mut v: Vec<char> = Vec::new();
    push_str(&mut v, name);
    push_str(&mut v, " already downloaded");
    string_of(&v)
}

pub fn download_complete_message(name: &str) -> (r: String)
    ensures
        r@ == name@ + " download complete"@,
{
    let mut v: Vec<char> = Vec::new();
    push_str(&mut v, name);
    push_str(&mut v, " download complete");
    string_of(&v)
}

} // verus!
