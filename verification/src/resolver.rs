//! The resolver client: argument lists for the two ways the external
//! resolver is invoked, interpretation of its captured output, the
//! filename fallback query, and the session state machine that strings
//! one file's attempts together. The caller runs the process and feeds
//! the captured streams back in.

use vstd::prelude::*;

verus! {

use crate::structs::{Picked, PickedFields};
use crate::strutil::{
    chars_of,
    spec_find,
    spec_is_ws,
    spec_lines,
    spec_starts_with,
    spec_trim,
    split_lines,
    trim_str,
    views,
    find_sub,
    region_matches,
};

/// The client identifier handed to the resolver with every invocation.
pub const REMOTE_AGENT: &'static str = "rusty-cov - 0.1.0";

/// The catalogue sources the resolver is asked to search.
pub const QUERY_SOURCES: &'static str =
    "booth,amazonmusic,applemusic,musicbrainz,discogs,fanarttv,soundcloud,itunes,tidal";

/// The country the resolver is asked to search from.
pub const QUERY_COUNTRY: &'static str = "gb";

/// Arguments of the direct invocation: resolve one input file.
pub fn direct_args<'a>(address: &'a str, input: &'a str) -> (args: Vec<&'a str>)
    ensures
        args@.len() == 10,
        args@[0]@ == "--address"@,
        args@[1]@ == address@,
        args@[2]@ == "--input"@,
        args@[3]@ == input@,
        args@[4]@ == "--remote-agent"@,
        args@[5]@ == REMOTE_AGENT@,
        args@[6]@ == "--query-sources"@,
        args@[7]@ == QUERY_SOURCES@,
        args@[8]@ == "--query-country"@,
        args@[9]@ == QUERY_COUNTRY@,
{
    let mut args: Vec<&'a str> = Vec::new();
    args.push("--address");
    args.push(address);
    args.push("--input");
    args.push(input);
    args.push("--remote-agent");
    args.push(REMOTE_AGENT);
    args.push("--query-sources");
    args.push(QUERY_SOURCES);
    args.push("--query-country");
    args.push(QUERY_COUNTRY);
    args
}

/// Arguments of the fallback invocation: query by album title, and by
/// artist only when one was derived and is not empty.
pub fn query_args<'a>(address: &'a str, title: &'a str, artist: Option<&'a str>) -> (args: Vec<
    &'a str,
>)
    ensures
        (match artist {
            Some(a) => a@.len() > 0,
            None => false,
        }) ==> {
            &&& args@.len() == 12
            &&& args@[4]@ == "--query-artist"@
            &&& args@[5]@ == artist->Some_0@
            &&& args@[6]@ == "--remote-agent"@
            &&& args@[7]@ == REMOTE_AGENT@
            &&& args@[8]@ == "--query-sources"@
            &&& args@[9]@ == QUERY_SOURCES@
            &&& args@[10]@ == "--query-country"@
            &&& args@[11]@ == QUERY_COUNTRY@
        },
        (match artist {
            Some(a) => a@.len() == 0,
            None => true,
        }) ==> {
            &&& args@.len() == 10
            &&& args@[4]@ == "--remote-agent"@
            &&& args@[5]@ == REMOTE_AGENT@
            &&& args@[6]@ == "--query-sources"@
            &&& args@[7]@ == QUERY_SOURCES@
            &&& args@[8]@ == "--query-country"@
            &&& args@[9]@ == QUERY_COUNTRY@
        },
        args@[0]@ == "--address"@,
        args@[1]@ == address@,
        args@[2]@ == "--query-album"@,
        args@[3]@ == title@,
{
    let mut args: Vec<&'a str> = Vec::new();
    args.push("--address");
    args.push(address);
    args.push("--query-album");
    args.push(title);
    match artist {
        Some(a) => {
            if !a.is_empty() {
                args.push("--query-artist");
                args.push(a);
            }
        },
        None => {},
    }
    args.push("--remote-agent");
    args.push(REMOTE_AGENT);
    args.push("--query-sources");
    args.push(QUERY_SOURCES);
    args.push("--query-country");
    args.push(QUERY_COUNTRY);
    args
}

/// A listening notice: the fixed prefix followed by the port number, at
/// least one digit and nothing else.
pub open spec fn spec_listening_line(l: Seq<char>) -> bool {
    &&& spec_starts_with(l, "Listening: "@)
    &&& l.len() > "Listening: "@.len()
    &&& (forall|j: int|
        "Listening: "@.len() <= j < l.len() ==> crate::strutil::spec_is_digit(#[trigger] l[j]))
}

/// Every line of the captured output is a listening notice.
pub open spec fn spec_listening_only(stdout: Seq<char>) -> bool {
    forall|i: int|
        0 <= i < spec_lines(stdout).len() ==> spec_listening_line(#[trigger] spec_lines(stdout)[i])
}

/// Nothing but white space.
pub open spec fn spec_blank(s: Seq<char>) -> bool {
    forall|i: int| 0 <= i < s.len() ==> spec_is_ws(#[trigger] s[i])
}

/// The output shape of a user who closed the interactive tab without
/// picking: only listening notices, and a silent error stream.
pub open spec fn spec_declined(stdout: Seq<char>, stderr: Seq<char>) -> bool {
    spec_listening_only(stdout) && spec_blank(stderr)
}

/// Whether the text is one well-formed JSON document: what the JSON
/// parser answers for it.
pub uninterp spec fn json_parses(s: Seq<char>) -> bool;

/// The string under `key` at the top of the JSON document `s`, if `s`
/// parses to an object that holds a string there.
pub uninterp spec fn json_top_str(s: Seq<char>, key: Seq<char>) -> Option<Seq<char>>;

/// The string under `outer.key` of the JSON document `s`, if `s` parses
/// to an object holding an object holding a string there.
pub uninterp spec fn json_str_field(s: Seq<char>, outer: Seq<char>, key: Seq<char>) -> Option<
    Seq<char>,
>;

/// The unsigned number under `outer.key` of the JSON document `s`, if `s`
/// parses to an object holding an object holding one there.
pub uninterp spec fn json_u64_field(s: Seq<char>, outer: Seq<char>, key: Seq<char>) -> Option<
    u64,
>;

/// The JSON payload of a picked line: what follows the prefix.
pub open spec fn spec_payload(l: Seq<char>) -> Seq<char> {
    l.skip("Picked: "@.len() as int)
}

/// A line that yields a record: the picked prefix, and a payload that
/// parses as JSON.
pub open spec fn is_picked_line(l: Seq<char>) -> bool {
    spec_starts_with(l, "Picked: "@) && json_parses(spec_payload(l))
}

/// Index of the first picked line at or after `i`, or -1.
pub open spec fn first_picked_from(lines: Seq<Seq<char>>, i: int) -> int
    decreases lines.len() - i,
    when 0 <= i <= lines.len()
{
    if i >= lines.len() {
        -1
    } else if is_picked_line(lines[i]) {
        i
    } else {
        first_picked_from(lines, i + 1)
    }
}

/// Index of the first picked line of the captured output, or -1.
pub open spec fn spec_first_picked(stdout: Seq<char>) -> int {
    first_picked_from(spec_lines(stdout), 0)
}

/// Some line of the captured output carries a parseable picked record.
pub open spec fn has_picked_line(stdout: Seq<char>) -> bool {
    spec_first_picked(stdout) != -1
}

/// The payload of the first picked line; meaningful only when one exists.
pub open spec fn spec_first_payload(stdout: Seq<char>) -> Seq<char> {
    spec_payload(spec_lines(stdout)[spec_first_picked(stdout)])
}

/// The record a payload parses to: each field is the named JSON read,
/// with the absent-field defaults of `Picked::from_fields`.
pub open spec fn spec_record_of(payload: Seq<char>, p: Picked) -> bool {
    &&& p.big_cover_url@ == (match json_top_str(payload, "bigCoverUrl"@) {
        Some(u) => u,
        None => Seq::<char>::empty(),
    })
    &&& p.release_info.title@ == (match json_str_field(payload, "releaseInfo"@, "title"@) {
        Some(t) => t,
        None => "Unknown Title"@,
    })
    &&& p.release_info.artist@ == (match json_str_field(payload, "releaseInfo"@, "artist"@) {
        Some(a) => a,
        None => "Unknown Artist"@,
    })
    &&& p.release_info.date@ == (match json_str_field(payload, "releaseInfo"@, "date"@) {
        Some(d) => d,
        None => "Unknown Date"@,
    })
    &&& p.release_info.tracks == (match json_u64_field(payload, "releaseInfo"@, "tracks"@) {
        Some(t) => Some((t % 0x1_0000_0000) as u32),
        None => None::<u32>,
    })
    &&& p.cover_info.format@ == (match json_str_field(payload, "coverInfo"@, "format"@) {
        Some(m) => m,
        None => "Unknown Format"@,
    })
    &&& p.cover_info.height == (match json_u64_field(payload, "coverInfo"@, "height"@) {
        Some(h) => (h % 0x1_0000_0000) as u32,
        None => 0u32,
    })
    &&& p.cover_info.width == (match json_u64_field(payload, "coverInfo"@, "width"@) {
        Some(w) => (w % 0x1_0000_0000) as u32,
        None => 0u32,
    })
    &&& p.cover_info.size == (match json_u64_field(payload, "coverInfo"@, "size"@) {
        Some(s) => s,
        None => 0u64,
    })
}

/// The cover URL the first picked line carries, empty when the field is
/// absent; meaningful only when a picked line exists.
pub open spec fn spec_found_url(stdout: Seq<char>) -> Seq<char> {
    match json_top_str(spec_first_payload(stdout), "bigCoverUrl"@) {
        Some(u) => u,
        None => Seq::<char>::empty(),
    }
}

/// Whether `s` begins with the characters of `p`.
pub fn starts_with_str(s: &str, p: &str) -> (r: bool)
    ensures
        r == spec_starts_with(s@, p@),
{
    let sc = chars_of(s);
    let pc = chars_of(p);
    if pc.len() > sc.len() {
        return false;
    }
    region_matches(&sc, 0, &pc)
}

/// Whether one line is a listening notice.
fn is_listening_line(l: &str) -> (r: bool)
    ensures
        r == spec_listening_line(l@),
{
    let lc = chars_of(l);
    let pc = chars_of("Listening: ");
    let plen = pc.len();
    let n = lc.len();
    if plen >= n {
        return false;
    }
    if !region_matches(&lc, 0, &pc) {
        return false;
    }
    let mut j: usize = plen;
    while j < n
        invariant
            n == lc@.len(),
            lc@ == l@,
            plen <= j <= n,
            plen == "Listening: "@.len(),
            forall|m: int| plen <= m < j ==> crate::strutil::spec_is_digit(#[trigger] l@[m]),
        decreases n - j,
    {
        let v = lc[j] as u32;
        if !(48 <= v && v <= 57) {
            return false;
        }
        j = j + 1;
    }
    true
}

/// Whether every output line is a listening notice.
fn all_listening(stdout: &str) -> (r: bool)
    ensures
        r == spec_listening_only(stdout@),
{
    let lines = split_lines(stdout);
    let n = lines.len();
    let mut i: usize = 0;
    while i < n
        invariant
            n == lines@.len(),
            i <= n,
            views(lines@) == spec_lines(stdout@),
            forall|j: int| 0 <= j < i ==> spec_listening_line(#[trigger] spec_lines(stdout@)[j]),
        decreases n - i,
    {
        proof {
            assert(views(lines@)[i as int] == lines@[i as int]@);
        }
        if !is_listening_line(lines[i].as_str()) {
            return false;
        }
        i = i + 1;
    }
    true
}

/// Whether the error stream is silent: empty once trimmed.
fn is_blank(stderr: &str) -> (r: bool)
    ensures
        r == spec_blank(stderr@),
{
    let cs = chars_of(stderr);
    let n = cs.len();
    let mut i: usize = 0;
    while i < n
        invariant
            n == cs@.len(),
            cs@ == stderr@,
            i <= n,
            forall|j: int| 0 <= j < i ==> spec_is_ws(#[trigger] stderr@[j]),
        decreases n - i,
    {
        if !crate::strutil::is_ws(cs[i]) {
            return false;
        }
        i = i + 1;
    }
    true
}

/// Relies on serde_json::from_str: whether the text is one well-formed
/// JSON document. The answer depends on the text alone.
#[verifier::external_body]
fn check_json(s: &str) -> (r: bool)
    ensures
        r == json_parses(s@),
{
    serde_json::from_str::<serde_json::Value>(s).is_ok()
}

/// Relies on serde_json::from_str, Value::get and Value::as_str: the
/// string under `key` at the top of the document, or nothing when the
/// text does not parse, the key is absent, or its value is no string.
/// The answer depends on the arguments alone.
#[verifier::external_body]
fn read_top_str(s: &str, key: &str) -> (r: Option<String>)
    ensures
        match (r, json_top_str(s@, key@)) {
            (Some(a), Some(b)) => a@ == b,
            (None, None) => true,
            _ => false,
        },
{
    match serde_json::from_str::<serde_json::Value>(s) {
        Ok(v) => v.get(key).and_then(serde_json::Value::as_str).map(|x| x.to_string()),
        Err(_) => None,
    }
}

/// Relies on serde_json::from_str, Value::get and Value::as_str: the
/// string under `key` of the object under `outer`, or nothing when any
/// step of that fails. The answer depends on the arguments alone.
#[verifier::external_body]
fn read_str_field(s: &str, outer: &str, key: &str) -> (r: Option<String>)
    ensures
        match (r, json_str_field(s@, outer@, key@)) {
            (Some(a), Some(b)) => a@ == b,
            (None, None) => true,
            _ => false,
        },
{
    match serde_json::from_str::<serde_json::Value>(s) {
        Ok(v) => v
            .get(outer)
            .and_then(|o| o.get(key))
            .and_then(serde_json::Value::as_str)
            .map(|x| x.to_string()),
        Err(_) => None,
    }
}

/// Relies on serde_json::from_str, Value::get and Value::as_u64: the
/// number under `key` of the object under `outer`, when it is there and
/// fits an unsigned 64-bit integer. The answer depends on the arguments
/// alone.
#[verifier::external_body]
fn read_u64_field(s: &str, outer: &str, key: &str) -> (r: Option<u64>)
    ensures
        r == json_u64_field(s@, outer@, key@),
{
    match serde_json::from_str::<serde_json::Value>(s) {
        Ok(v) => v.get(outer).and_then(|o| o.get(key)).and_then(serde_json::Value::as_u64),
        Err(_) => None,
    }
}

/// Parses the resolver's captured output for a picked record: the first
/// line prefixed `Picked: ` whose payload parses as JSON wins, later ones
/// are ignored, and there is a record exactly when such a line exists.
/// The record's fields are the first payload's, absent ones defaulted.
pub fn parse_covit_output(stdout: &str) -> (r: Option<Picked>)
    ensures
        (r is Some) == has_picked_line(stdout@),
        r matches Some(p) ==> spec_record_of(spec_first_payload(stdout@), p),
{
    let lines = split_lines(stdout);
    let n = lines.len();
    let ghost all = spec_lines(stdout@);
    let mut i: usize = 0;
    while i < n
        invariant
            n == lines@.len(),
            views(lines@) == all,
            all == spec_lines(stdout@),
            i <= n,
            first_picked_from(all, 0) == first_picked_from(all, i as int),
        decreases n - i,
    {
        proof {
            assert(views(lines@)[i as int] == lines@[i as int]@);
        }
        let line = lines[i].as_str();
        if starts_with_str(line, "Picked: ") {
            let plen = "Picked: ".unicode_len();
            let json = line.substring_char(plen, line.unicode_len());
            proof {
                assert(json@ =~= spec_payload(all[i as int]));
            }
            if check_json(json) {
                proof {
                    assert(is_picked_line(all[i as int]));
                    assert(first_picked_from(all, i as int) == i as int);
                    assert(spec_first_picked(stdout@) == i as int);
                    assert(spec_first_payload(stdout@) == json@);
                }
                let fields = PickedFields {
                    big_cover_url: read_top_str(json, "bigCoverUrl"),
                    title: read_str_field(json, "releaseInfo", "title"),
                    artist: read_str_field(json, "releaseInfo", "artist"),
                    date: read_str_field(json, "releaseInfo", "date"),
                    tracks: read_u64_field(json, "releaseInfo", "tracks"),
                    format: read_str_field(json, "coverInfo", "format"),
                    height: read_u64_field(json, "coverInfo", "height"),
                    width: read_u64_field(json, "coverInfo", "width"),
                    size: read_u64_field(json, "coverInfo", "size"),
                };
                let p = Picked::from_fields(fields);
                proof {
                    assert(spec_record_of(spec_first_payload(stdout@), p));
                }
                return Some(p);
            }
        }
        proof {
            assert(!is_picked_line(all[i as int]));
            assert(first_picked_from(all, i as int) == first_picked_from(all, i + 1));
        }
        i = i + 1;
    }
    proof {
        assert(first_picked_from(all, i as int) == -1);
    }
    None
}

/// How one direct resolver invocation ended: a record was picked, the
/// user declined, or nothing was found and the fallback may follow.
pub enum ResolveOutcome {
    Found(Picked),
    Declined,
    NotFound,
}

/// Reads one direct invocation's captured streams. Declined means exactly
/// the declining shape: every output line a listening notice and a silent
/// error stream. Otherwise there is a find exactly when a picked line
/// carries a record with a non-empty cover URL — a record without one is
/// never acted upon — and the find is that record.
pub fn classify_direct_output(stdout: &str, stderr: &str) -> (r: ResolveOutcome)
    ensures
        (r is Declined) == spec_declined(stdout@, stderr@),
        !spec_declined(stdout@, stderr@) ==> ((r is Found) == (has_picked_line(stdout@)
            && spec_found_url(stdout@).len() > 0)),
        r matches ResolveOutcome::Found(p) ==> spec_record_of(spec_first_payload(stdout@), p)
            && p.big_cover_url@.len() > 0,
        !spec_declined(stdout@, stderr@) && !(has_picked_line(stdout@) && spec_found_url(
            stdout@,
        ).len() > 0) ==> r is NotFound,
{
    if all_listening(stdout) && is_blank(stderr) {
        return ResolveOutcome::Declined;
    }
    match parse_covit_output(stdout) {
        Some(p) => {
            if p.big_cover_url.as_str().is_empty() {
                ResolveOutcome::NotFound
            } else {
                ResolveOutcome::Found(p)
            }
        },
        None => ResolveOutcome::NotFound,
    }
}

/// The delimiters a file name is split on, most specific first; the first
/// one that occurs anywhere in the name wins.
pub open spec fn spec_split_by(s: Seq<char>, d: Seq<char>) -> (Seq<char>, Seq<char>) {
    let i = spec_find(s, d);
    (spec_trim(s.subrange(0, i)), spec_trim(s.subrange(i + d.len(), s.len() as int)))
}

/// The (artist, title) a file stem parses to: split at the first delimiter
/// of the fixed order that occurs, both sides trimmed; a name without one
/// is all title.
pub open spec fn spec_parse_file_name(s: Seq<char>) -> (Option<Seq<char>>, Option<Seq<char>>) {
    if spec_find(s, " - "@) != -1 {
        (Some(spec_split_by(s, " - "@).0), Some(spec_split_by(s, " - "@).1))
    } else if spec_find(s, " \u{2013} "@) != -1 {
        (Some(spec_split_by(s, " \u{2013} "@).0), Some(spec_split_by(s, " \u{2013} "@).1))
    } else if spec_find(s, " \u{2014} "@) != -1 {
        (Some(spec_split_by(s, " \u{2014} "@).0), Some(spec_split_by(s, " \u{2014} "@).1))
    } else if spec_find(s, " _ "@) != -1 {
        (Some(spec_split_by(s, " _ "@).0), Some(spec_split_by(s, " _ "@).1))
    } else if spec_find(s, ":"@) != -1 {
        (Some(spec_split_by(s, ":"@).0), Some(spec_split_by(s, ":"@).1))
    } else if spec_find(s, " | "@) != -1 {
        (Some(spec_split_by(s, " | "@).0), Some(spec_split_by(s, " | "@).1))
    } else {
        (None, Some(spec_trim(s)))
    }
}

/// Splits `s` at the first occurrence of `d` and trims both sides.
fn split_at_delim(s: &str, d: &str) -> (r: Option<(String, String)>)
    ensures
        match r {
            Some(p) => spec_find(s@, d@) != -1 && p.0@ == spec_split_by(s@, d@).0 && p.1@
                == spec_split_by(s@, d@).1,
            None => spec_find(s@, d@) == -1,
        },
{
    let cs = chars_of(s);
    let dc = chars_of(d);
    match find_sub(&cs, &dc) {
        Some(i) => {
            let dlen = d.unicode_len();
            let slen = s.unicode_len();
            proof {
                assert(i + dlen <= slen);
            }
            let left = trim_str(s.substring_char(0, i));
            let right = trim_str(s.substring_char(i + dlen, slen));
            Some((left.to_owned(), right.to_owned()))
        },
        None => None,
    }
}

/// Parses a file stem into an artist and a title by the delimiter rule.
pub fn parse_file_name(file_stem: &str) -> (r: (Option<String>, Option<String>))
    ensures
        ({
            let sp = spec_parse_file_name(file_stem@);
            &&& (match (r.0, sp.0) {
                (Some(a), Some(b)) => a@ == b,
                (None, None) => true,
                _ => false,
            })
            &&& (match (r.1, sp.1) {
                (Some(a), Some(b)) => a@ == b,
                (None, None) => true,
                _ => false,
            })
        }),
{
    match split_at_delim(file_stem, " - ") {
        Some(p) => {
            return (Some(p.0), Some(p.1));
        },
        None => {},
    }
    match split_at_delim(file_stem, " \u{2013} ") {
        Some(p) => {
            return (Some(p.0), Some(p.1));
        },
        None => {},
    }
    match split_at_delim(file_stem, " \u{2014} ") {
        Some(p) => {
            return (Some(p.0), Some(p.1));
        },
        None => {},
    }
    match split_at_delim(file_stem, " _ ") {
        Some(p) => {
            return (Some(p.0), Some(p.1));
        },
        None => {},
    }
    match split_at_delim(file_stem, ":") {
        Some(p) => {
            return (Some(p.0), Some(p.1));
        },
        None => {},
    }
    match split_at_delim(file_stem, " | ") {
        Some(p) => {
            return (Some(p.0), Some(p.1));
        },
        None => {},
    }
    (None, Some(trim_str(file_stem).to_owned()))
}

/// Where one file's resolution stands.
#[derive(Debug, PartialEq, Eq, Structural, Clone, Copy)]
pub enum ResolverPhase {
    AwaitingDirect,
    AwaitingFallback,
    Finished,
}

/// One file's passage through the resolver protocol: the direct attempt,
/// then at most one fallback query derived from the file name. The caller
/// runs the resolver process and feeds each invocation's captured output
/// back in; a declined answer is final and is never retried.
pub struct ResolverSession {
    pub phase: ResolverPhase,
    pub fallback_title: Option<String>,
    pub fallback_artist: Option<String>,
    pub result: Option<Picked>,
}

/// The title a stem's parse derives, when it is non-empty: what makes the
/// fallback query worth running.
pub open spec fn spec_fallback_title(stem: Seq<char>) -> Option<Seq<char>> {
    match spec_parse_file_name(stem).1 {
        Some(t) => if t.len() > 0 {
            Some(t)
        } else {
            None
        },
        None => None,
    }
}

impl ResolverSession {
    /// A session before its direct attempt.
    pub fn start() -> (s: ResolverSession)
        ensures
            s.phase == ResolverPhase::AwaitingDirect,
            s.result is None,
            s.fallback_title is None,
            s.fallback_artist is None,
    {
        ResolverSession {
            phase: ResolverPhase::AwaitingDirect,
            fallback_title: None,
            fallback_artist: None,
            result: None,
        }
    }

    /// Feeds the direct invocation's captured streams in. A declining
    /// answer finishes the session without a result and without a retry;
    /// a picked record with a usable cover URL finishes it with exactly
    /// that record; anything else — including a record whose URL is empty,
    /// which is never acted upon — moves to the fallback when the file
    /// name yields a non-empty title, and finishes without a result when
    /// it does not.
    pub fn feed_direct(&mut self, stdout: &str, stderr: &str, file_stem: &str)
        requires
            old(self).phase == ResolverPhase::AwaitingDirect,
        ensures
            spec_declined(stdout@, stderr@) ==> final(self).phase == ResolverPhase::Finished
                && final(self).result is None,
            !spec_declined(stdout@, stderr@) ==> ((final(self).result is Some) == (has_picked_line(
                stdout@,
            ) && spec_found_url(stdout@).len() > 0)),
            final(self).result matches Some(p) ==> final(self).phase == ResolverPhase::Finished
                && spec_record_of(spec_first_payload(stdout@), p) && p.big_cover_url@.len() > 0,
            !spec_declined(stdout@, stderr@) && final(self).result is None ==> (match
                spec_fallback_title(file_stem@) {
                Some(t) => {
                    &&& final(self).phase == ResolverPhase::AwaitingFallback
                    &&& final(self).fallback_title matches Some(ft) && ft@ == t
                    &&& (match (final(self).fallback_artist, spec_parse_file_name(file_stem@).0) {
                        (Some(fa), Some(sa)) => fa@ == sa,
                        (None, None) => true,
                        _ => false,
                    })
                },
                None => final(self).phase == ResolverPhase::Finished,
            }),
    {
        match classify_direct_output(stdout, stderr) {
            ResolveOutcome::Declined => {
                self.result = None;
                self.phase = ResolverPhase::Finished;
            },
            ResolveOutcome::Found(p) => {
                self.result = Some(p);
                self.phase = ResolverPhase::Finished;
            },
            ResolveOutcome::NotFound => {
                self.result = None;
                let parsed = parse_file_name(file_stem);
                let retry = match &parsed.1 {
                    Some(t) => !t.as_str().is_empty(),
                    None => false,
                };
                if retry {
                    self.fallback_title = parsed.1;
                    self.fallback_artist = parsed.0;
                    self.phase = ResolverPhase::AwaitingFallback;
                } else {
                    self.phase = ResolverPhase::Finished;
                }
            },
        }
    }

    /// Feeds the fallback invocation's captured output in; the session is
    /// finished either way, and the result is the first picked line's
    /// record exactly when there is one and its cover URL is non-empty.
    pub fn feed_fallback(&mut self, stdout: &str)
        requires
            old(self).phase == ResolverPhase::AwaitingFallback,
        ensures
            final(self).phase == ResolverPhase::Finished,
            (final(self).result is Some) == (has_picked_line(stdout@) && spec_found_url(
                stdout@,
            ).len() > 0),
            final(self).result matches Some(p) ==> spec_record_of(spec_first_payload(stdout@), p)
                && p.big_cover_url@.len() > 0,
            final(self).fallback_title == old(self).fallback_title,
            final(self).fallback_artist == old(self).fallback_artist,
    {
        self.result = match parse_covit_output(stdout) {
            Some(p) => {
                if p.big_cover_url.as_str().is_empty() {
                    None
                } else {
                    Some(p)
                }
            },
            None => None,
        };
        self.phase = ResolverPhase::Finished;
    }
}

} // verus!
