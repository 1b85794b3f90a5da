//! The desktop client's own logic: greetings, update targets, names of
//! foreground applications, and the frames handed to the media engine.
use vstd::prelude::*;
use crate::text::{
    ascii_upper, chars_of, concat, find_char, find_char_exec, int_decimal, is_ws, is_whitespace,
    lit, parse_in_range, parse_u32, rfind_char, rfind_char_exec, slice_range, split_exec,
    split_spec, string_from_chars, trim, trim_spec, u64_decimal, contains_sub, contains_sub_spec,
    ends_with, ends_with_spec,
};
use crate::trusted::{portable_file_name, path_file_name, str_to_lowercase, to_lowercase_spec, unix_time_secs};

verus! {

/// The greeting of the desktop client.
pub fn greet(name: &str) -> (r: String)
    ensures
        r@ == "Hello, "@ + name@ + "! Welcome to Paracord."@,
{
    let mut s = String::from_str("Hello, ");
    s.append(name);
    s.append("! Welcome to Paracord.");
    s
}

/// What the updater installs on this machine.
pub struct UpdateTargetInfo {
    pub os: String,
    pub arch: String,
    pub installer_preference: String,
}

/// The installer kind for an operating system: `msi` on Windows; on Linux
/// `appimage` when running from an AppImage, else `deb`; `asset` elsewhere.
pub open spec fn installer_spec(os: Seq<char>, current_exe: Option<Seq<char>>) -> Seq<char> {
    if os == "windows"@ {
        "msi"@
    } else if os == "linux"@ {
        if current_exe matches Some(p) && ends_with_spec(p, ".AppImage"@) {
            "appimage"@
        } else {
            "deb"@
        }
    } else {
        "asset"@
    }
}

/// `os` is the target operating system's name (`std::env::consts::OS`),
/// `current_exe` the path of the running executable, when known.
pub fn installer_preference(os: &str, current_exe: Option<&str>) -> (r: String)
    ensures
        r@ == installer_spec(
            os@,
            match current_exe {
                Some(p) => Some(p@),
                None => None,
            },
        ),
{
    let o = chars_of(os);
    if crate::text::is_lit(&o, "windows") {
        String::from_str("msi")
    } else if crate::text::is_lit(&o, "linux") {
        let appimage = match current_exe {
            Some(p) => ends_with(&chars_of(p), &lit(".AppImage")),
            None => false,
        };
        if appimage {
            String::from_str("appimage")
        } else {
            String::from_str("deb")
        }
    } else {
        String::from_str("asset")
    }
}

/// The application in front, as reported to the server for activity status.
pub struct ForegroundApplication {
    pub pid: u32,
    pub process_name: String,
    pub display_name: String,
    pub executable_path: Option<String>,
    pub window_title: Option<String>,
}

/// `s.trim_end_matches(p)`: every trailing copy of `p` removed.
pub open spec fn strip_suffixes(s: Seq<char>, p: Seq<char>) -> Seq<char>
    decreases s.len(),
{
    if p.len() > 0 && ends_with_spec(s, p) {
        strip_suffixes(s.take(s.len() - p.len()), p)
    } else {
        s
    }
}

/// `_` and `-` read as spaces.
pub open spec fn dash_to_space(c: char) -> char {
    if c == '_' || c == '-' {
        ' '
    } else {
        c
    }
}

/// The whitespace-separated words of a text (`split_whitespace`), and
/// whether the text ends inside a word.
pub open spec fn scan_words(s: Seq<char>) -> (Seq<Seq<char>>, bool)
    decreases s.len(),
{
    if s.len() == 0 {
        (Seq::empty(), false)
    } else {
        let (w, in_word) = scan_words(s.drop_last());
        let c = s.last();
        if is_ws(c) {
            (w, false)
        } else if in_word && w.len() > 0 {
            (w.update(w.len() - 1, w.last().push(c)), true)
        } else {
            (w.push(seq![c]), true)
        }
    }
}

/// A word with its first character ASCII-uppercased.
pub open spec fn capitalized(w: Seq<char>) -> Seq<char> {
    if w.len() == 0 {
        w
    } else {
        seq![ascii_upper(w[0])] + w.drop_first()
    }
}

/// Words joined by single spaces.
pub open spec fn join_words(ws: Seq<Seq<char>>) -> Seq<char>
    decreases ws.len(),
{
    if ws.len() == 0 {
        Seq::empty()
    } else if ws.len() == 1 {
        ws[0]
    } else {
        join_words(ws.drop_last()) + seq![' '] + ws.last()
    }
}

/// A readable application name from a process name: without trailing
/// `.exe`, `_` and `-` as spaces, each word capitalised, single spaces;
/// `Unknown App` when nothing is left.
pub open spec fn readable_name_spec(raw: Seq<char>) -> Seq<char> {
    let cleaned = strip_suffixes(raw, ".exe"@).map_values(|c: char| dash_to_space(c));
    let words = scan_words(cleaned).0;
    if words.len() == 0 {
        "Unknown App"@
    } else {
        join_words(words.map_values(|w: Seq<char>| capitalized(w)))
    }
}

proof fn lemma_words_nonempty(s: Seq<char>)
    ensures
        forall|i: int| 0 <= i < scan_words(s).0.len() ==> (#[trigger] scan_words(s).0[i]).len() > 0,
    decreases s.len(),
{
    if s.len() > 0 {
        lemma_words_nonempty(s.drop_last());
        let (w, in_word) = scan_words(s.drop_last());
        let c = s.last();
        let r = scan_words(s).0;
        if !is_ws(c) && in_word && w.len() > 0 {
            assert forall|i: int| 0 <= i < r.len() implies (#[trigger] r[i]).len() > 0 by {
                if i < w.len() - 1 {
                    assert(r[i] == w[i]);
                }
            }
        } else if !is_ws(c) {
            assert forall|i: int| 0 <= i < r.len() implies (#[trigger] r[i]).len() > 0 by {
                if i < w.len() {
                    assert(r[i] == w[i]);
                }
            }
        }
    }
}

pub fn readable_process_name(raw: &str) -> (r: String)
    ensures
        r@ == readable_name_spec(raw@),
{
    proof {
        reveal_strlit(".exe");
    }
    // drop trailing ".exe"s
    let v = chars_of(raw);
    let ext = lit(".exe");
    let mut n: usize = v.len();
    assert(v@.take(n as int) == v@);
    while n >= 4 && ends_with(&slice_range(&v, 0, n), &ext)
        invariant
            n <= v@.len(),
            ext@ == ".exe"@,
            ext@.len() == 4,
            strip_suffixes(v@.take(n as int), ext@) == strip_suffixes(v@, ext@),
        decreases n,
    {
        assert(v@.subrange(0, n as int) == v@.take(n as int));
        assert(ext@.len() == 4);
        assert(v@.take(n as int).len() == n);
        assert(v@.take(n as int).take(n - 4) == v@.take(n - 4));
        assert(strip_suffixes(v@.take(n as int), ext@) == strip_suffixes(v@.take(n - 4), ext@));
        n = n - 4;
    }
    assert(v@.subrange(0, n as int) == v@.take(n as int));
    proof {
        if n < 4 {
            assert(!ends_with_spec(v@.take(n as int), ext@));
        }
    }
    let base = slice_range(&v, 0, n);
    let ghost cleaned = strip_suffixes(v@, ext@).map_values(|c: char| dash_to_space(c));
    // split into words
    let mut words: Vec<Vec<char>> = Vec::new();
    let mut in_word = false;
    let mut i: usize = 0;
    while i < base.len()
        invariant
            i <= base@.len(),
            base@ == strip_suffixes(v@, ext@),
            cleaned == base@.map_values(|c: char| dash_to_space(c)),
            ({
                let (w, iw) = scan_words(cleaned.take(i as int));
                &&& words@.len() == w.len()
                &&& forall|j: int| 0 <= j < w.len() ==> (#[trigger] words@[j])@ == w[j]
                &&& in_word == iw
            }),
        decreases base.len() - i,
    {
        let c0 = base[i];
        let c = if c0 == '_' || c0 == '-' {
            ' '
        } else {
            c0
        };
        let ghost t = cleaned.take(i as int + 1);
        assert(t.drop_last() == cleaned.take(i as int));
        assert(t.last() == c);
        let ghost prev = scan_words(cleaned.take(i as int)).0;
        if is_whitespace(c) {
            in_word = false;
        } else if in_word && words.len() > 0 {
            let last = words.len() - 1;
            let mut w = words[last].clone();
            assert(w@ == prev[last as int]);
            w.push(c);
            words.set(last, w);
            assert forall|j: int| 0 <= j < words@.len() implies (#[trigger] words@[j])@
                == prev.update(last as int, prev.last().push(c))[j] by {}
        } else {
            words.push(vec![c]);
            assert(words@[words@.len() - 1]@ =~= seq![c]);
            assert forall|j: int| 0 <= j < words@.len() implies (#[trigger] words@[j])@ == prev.push(
                seq![c],
            )[j] by {}
            in_word = true;
        }
        i = i + 1;
    }
    assert(cleaned.take(i as int) == cleaned);
    let ghost ws = scan_words(cleaned).0;
    proof {
        lemma_words_nonempty(cleaned);
    }
    if words.len() == 0 {
        return String::from_str("Unknown App");
    }
    let ghost caps = ws.map_values(|w: Seq<char>| capitalized(w));
    let mut out: Vec<char> = Vec::new();
    let mut k: usize = 0;
    while k < words.len()
        invariant
            k <= words@.len(),
            words@.len() == ws.len(),
            forall|j: int| 0 <= j < ws.len() ==> (#[trigger] words@[j])@ == ws[j],
            forall|j: int| 0 <= j < ws.len() ==> (#[trigger] ws[j]).len() > 0,
            caps == ws.map_values(|w: Seq<char>| capitalized(w)),
            out@ == join_words(caps.take(k as int)),
        decreases words.len() - k,
    {
        assert(words@[k as int]@ == ws[k as int]);
        let w = &words[k];
        assert(w@.len() > 0);
        let f = w[0];
        let up = if 'a' <= f && f <= 'z' {
            ((f as u8) - 32) as char
        } else {
            f
        };
        let mut cap: Vec<char> = vec![up];
        cap = concat(&cap, &slice_range(w, 1, w.len()));
        assert(cap@ =~= capitalized(ws[k as int]));
        let ghost t = caps.take(k as int + 1);
        assert(t.drop_last() == caps.take(k as int));
        assert(t.last() == cap@);
        if k > 0 {
            out.push(' ');
        }
        out = concat(&out, &cap);
        proof {
            if k == 0 {
                assert(t.len() == 1);
                assert(out@ =~= join_words(t));
            }
        }
        k = k + 1;
    }
    assert(caps.take(k as int) == caps);
    string_from_chars(&out)
}

/// The digits of a text, read as a `u32` (`None` without digits or when
/// too large).
pub open spec fn ascii_digits(s: Seq<char>) -> Seq<char>
    decreases s.len(),
{
    if s.len() == 0 {
        Seq::empty()
    } else if '0' <= s.last() && s.last() <= '9' {
        ascii_digits(s.drop_last()).push(s.last())
    } else {
        ascii_digits(s.drop_last())
    }
}

pub fn parse_first_u32(text: &str) -> (r: Option<u32>)
    ensures
        r == (if ascii_digits(text@).len() == 0 {
            None
        } else {
            match parse_in_range(ascii_digits(text@), false, 0, u32::MAX as int) {
                Some(n) => Some(n as u32),
                None => None,
            }
        }),
{
    let v = chars_of(text);
    let mut digits: Vec<char> = Vec::new();
    let mut i: usize = 0;
    while i < v.len()
        invariant
            i <= v@.len(),
            digits@ == ascii_digits(v@.take(i as int)),
        decreases v.len() - i,
    {
        let c = v[i];
        assert(v@.take(i as int + 1).drop_last() == v@.take(i as int));
        assert(v@.take(i as int + 1).last() == c);
        if '0' <= c && c <= '9' {
            digits.push(c);
        }
        i = i + 1;
    }
    assert(v@.take(i as int) == v@);
    if digits.len() == 0 {
        return None;
    }
    parse_u32(&digits)
}

/// The file name of an executable's path, when it has one that is not blank.
pub fn process_name_from_path(path: &str) -> (r: Option<String>)
    ensures
        r matches Some(n) ==> trim_spec(n@).len() > 0,
        portable_file_name(path@) matches Some(n) ==> (r is Some <==> trim_spec(n).len() > 0),
        portable_file_name(path@) matches Some(n) ==> (r matches Some(m) ==> m@ == n),
{
    match path_file_name(path) {
        Some(name) => if trim(&chars_of(name.as_str())).len() > 0 {
            Some(name)
        } else {
            None
        },
        None => None,
    }
}

/// The value of an `xprop` line: the text between the first and the last
/// double quote after it, trimmed; else the part after the first `=`
/// (up to a second `=`), trimmed; absent when blank.
pub open spec fn xprop_value_spec(raw: Seq<char>) -> Option<Seq<char>> {
    let quoted = match find_char(raw, '"') {
        Some(q) => {
            let rest = raw.skip(q + 1);
            match rfind_char(rest, '"') {
                Some(l) => if trim_spec(rest.take(l)).len() > 0 {
                    Some(trim_spec(rest.take(l)))
                } else {
                    None
                },
                None => None,
            }
        },
        None => None,
    };
    match quoted {
        Some(v) => Some(v),
        None => {
            let parts = split_spec(raw, '=');
            if parts.len() > 1 && trim_spec(parts[1]).len() > 0 {
                Some(trim_spec(parts[1]))
            } else {
                None
            }
        },
    }
}

pub fn parse_xprop_string_value(raw: &str) -> (r: Option<String>)
    ensures
        match r {
            Some(v) => xprop_value_spec(raw@) == Some(v@),
            None => xprop_value_spec(raw@) is None,
        },
{
    let v = chars_of(raw);
    proof {
        crate::text::lemma_find_char(v@, '"');
    }
    if let Some(q) = find_char_exec(&v, '"') {
        let rest = slice_range(&v, q + 1, v.len());
        assert(rest@ == v@.skip(q + 1));
        proof {
            crate::text::lemma_rfind_char(rest@, '"');
        }
        if let Some(l) = rfind_char_exec(&rest, '"') {
            let value = trim(&slice_range(&rest, 0, l));
            assert(rest@.subrange(0, l as int) == rest@.take(l as int));
            if value.len() > 0 {
                return Some(string_from_chars(&value));
            }
        }
    }
    let parts = split_exec(&v, '=');
    if parts.len() > 1 {
        let t = trim(&parts[1]);
        if t.len() > 0 {
            return Some(string_from_chars(&t));
        }
    }
    None
}

/// Applications whose process name mentions Paracord are not reported.
pub fn is_own_process(process_name: &str) -> (r: bool)
    ensures
        r == contains_sub_spec(to_lowercase_spec(process_name@), "paracord"@),
{
    let l = str_to_lowercase(process_name);
    contains_sub(&chars_of(l.as_str()), &lit("paracord"))
}

/// The stamp written to the client's log: `unix_ts=<seconds>`.
pub fn unix_timestamp_text(now: u64) -> (r: String)
    ensures
        r@ == "unix_ts="@ + int_decimal(now as int),
{
    let mut s = String::from_str("unix_ts=");
    s.append(string_from_chars(&u64_decimal(now)).as_str());
    s
}

/// The current stamp, by the system clock.
pub fn chrono_like_timestamp_utc() -> (r: String)
    ensures
        exists|now: u64| r@ == "unix_ts="@ + int_decimal(now as int),
{
    unix_timestamp_text(unix_time_secs())
}

// ---------------------------------------------------------------------------
// Native media
// ---------------------------------------------------------------------------

/// A voice session as reported to the interface.
pub struct VoiceSessionInfo {
    pub session_id: String,
    pub connected: bool,
}

/// The outcome of a file transfer.
pub struct FileTransferResult {
    pub transfer_id: String,
    pub attachment_id: Option<String>,
    pub url: Option<String>,
    pub success: bool,
}

/// A little-endian `u32` from four bytes.
pub open spec fn le_u32(b0: u8, b1: u8, b2: u8, b3: u8) -> u32 {
    (b0 as int + 256 * b1 as int + 65536 * b2 as int + 16777216 * b3 as int) as u32
}

/// A video frame handed over in binary: width and height as little-endian
/// `u32`, then the pixels.
pub fn parse_frame_payload(body: &[u8]) -> (r: Result<(u32, u32, Vec<u8>), String>)
    ensures
        match r {
            Ok((w, h, px)) => body@.len() >= 8 && w == le_u32(body@[0], body@[1], body@[2], body@[3])
                && h == le_u32(body@[4], body@[5], body@[6], body@[7]) && px@ == body@.skip(8),
            Err(m) => body@.len() < 8 && m@ == "frame payload too short"@,
        },
{
    if body.len() < 8 {
        return Err(String::from_str("frame payload too short"));
    }
    let w: u32 = body[0] as u32 + 256 * (body[1] as u32) + 65536 * (body[2] as u32) + 16777216 * (
    body[3] as u32);
    let h: u32 = body[4] as u32 + 256 * (body[5] as u32) + 65536 * (body[6] as u32) + 16777216 * (
    body[7] as u32);
    let mut px: Vec<u8> = Vec::new();
    let mut i: usize = 8;
    while i < body.len()
        invariant
            8 <= i <= body@.len(),
            px@ == body@.subrange(8, i as int),
        decreases body.len() - i,
    {
        px.push(body[i]);
        assert(body@.subrange(8, i as int + 1) == body@.subrange(8, i as int).push(body@[i as int]));
        i = i + 1;
    }
    assert(body@.subrange(8, i as int) == body@.skip(8));
    Ok((w, h, px))
}

} // verus!
