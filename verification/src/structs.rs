//! Classification of files by extension, grouping of classified files by
//! parent directory, and the records a resolver answer is carried in.

use vstd::prelude::*;

verus! {

use crate::deps::DependencyPaths;
use crate::helpers::{sort_files, sorted_by_track};
use crate::strutil::{extension_of, parent_of, spec_extension, spec_parent, views};

/// Supported audio/video file formats, and `Unknown` for the rest.
#[derive(Debug, PartialEq, Eq, Structural, Clone, Copy)]
pub enum FileFormat {
    Mp3,
    M4a,
    Flac,
    Aac,
    Opus,
    Ogg,
    Wma,
    Wav,
    Aiff,
    Alac,
    Ape,
    Flv,
    Webm,
    Unknown,
}

/// ASCII upper-case letters folded to lower case, other values unchanged.
pub open spec fn lower_u32(v: u32) -> u32 {
    if 65 <= v && v <= 90 {
        (v + 32) as u32
    } else {
        v
    }
}

/// `ext` equals `lit` up to ASCII case, where `lit` is already lower case.
pub open spec fn matches_ci(ext: Seq<char>, lit: Seq<char>) -> bool {
    ext.len() == lit.len() && (forall|i: int|
        0 <= i < ext.len() ==> lower_u32(#[trigger] ext[i] as u32) == lit[i] as u32)
}

/// The format a path classifies to, by its extension, case-insensitively.
pub open spec fn spec_format_of(path: Seq<char>) -> FileFormat {
    match spec_extension(path) {
        None => FileFormat::Unknown,
        Some(e) => if matches_ci(e, "mp3"@) {
            FileFormat::Mp3
        } else if matches_ci(e, "m4a"@) {
            FileFormat::M4a
        } else if matches_ci(e, "flac"@) {
            FileFormat::Flac
        } else if matches_ci(e, "aac"@) {
            FileFormat::Aac
        } else if matches_ci(e, "opus"@) {
            FileFormat::Opus
        } else if matches_ci(e, "ogg"@) {
            FileFormat::Ogg
        } else if matches_ci(e, "wma"@) {
            FileFormat::Wma
        } else if matches_ci(e, "wav"@) {
            FileFormat::Wav
        } else if matches_ci(e, "aiff"@) {
            FileFormat::Aiff
        } else if matches_ci(e, "alac"@) {
            FileFormat::Alac
        } else if matches_ci(e, "ape"@) {
            FileFormat::Ape
        } else if matches_ci(e, "flv"@) {
            FileFormat::Flv
        } else if matches_ci(e, "webm"@) {
            FileFormat::Webm
        } else {
            FileFormat::Unknown
        },
    }
}

/// Whether `ext` spells `lit` up to ASCII case.
fn ext_eq(ext: &str, lit: &str) -> (r: bool)
    ensures
        r == matches_ci(ext@, lit@),
{
    let en = ext.unicode_len();
    let ln = lit.unicode_len();
    if en != ln {
        return false;
    }
    let mut i: usize = 0;
    while i < en
        invariant
            en == ext@.len(),
            en == lit@.len(),
            i <= en,
            forall|j: int| 0 <= j < i ==> lower_u32(#[trigger] ext@[j] as u32) == lit@[j] as u32,
        decreases en - i,
    {
        let c = ext.get_char(i) as u32;
        let lc = if 65 <= c && c <= 90 {
            c + 32
        } else {
            c
        };
        if lc != lit.get_char(i) as u32 {
            return false;
        }
        i = i + 1;
    }
    true
}

impl FileFormat {
    /// Classifies a path by the extension of its file name.
    pub fn from_path(path: &str) -> (f: FileFormat)
        ensures
            f == spec_format_of(path@),
    {
        match extension_of(path) {
            None => FileFormat::Unknown,
            Some(e) => {
                if ext_eq(e, "mp3") {
                    FileFormat::Mp3
                } else if ext_eq(e, "m4a") {
                    FileFormat::M4a
                } else if ext_eq(e, "flac") {
                    FileFormat::Flac
                } else if ext_eq(e, "aac") {
                    FileFormat::Aac
                } else if ext_eq(e, "opus") {
                    FileFormat::Opus
                } else if ext_eq(e, "ogg") {
                    FileFormat::Ogg
                } else if ext_eq(e, "wma") {
                    FileFormat::Wma
                } else if ext_eq(e, "wav") {
                    FileFormat::Wav
                } else if ext_eq(e, "aiff") {
                    FileFormat::Aiff
                } else if ext_eq(e, "alac") {
                    FileFormat::Alac
                } else if ext_eq(e, "ape") {
                    FileFormat::Ape
                } else if ext_eq(e, "flv") {
                    FileFormat::Flv
                } else if ext_eq(e, "webm") {
                    FileFormat::Webm
                } else {
                    FileFormat::Unknown
                }
            },
        }
    }

    /// Whether the variant is a real format.
    pub fn is_known(&self) -> (r: bool)
        ensures
            r == (*self != FileFormat::Unknown),
    {
        *self != FileFormat::Unknown
    }
}

/// The classified files sharing one parent directory.
pub struct DirGroup {
    pub dir: String,
    pub files: Vec<String>,
}

/// No two groups name the same directory.
pub open spec fn dirs_unique(gs: Seq<DirGroup>) -> bool {
    forall|i: int, j: int| 0 <= i < j < gs.len() ==> (#[trigger] gs[i].dir)@ != (#[trigger] gs[j].dir)@
}

/// What one classification step leaves behind: either the path was dropped,
/// or it was appended to the group of its parent directory.
pub open spec fn spec_added(gs: Seq<DirGroup>, gs2: Seq<DirGroup>, path: Seq<char>) -> bool {
    if spec_format_of(path) == FileFormat::Unknown || spec_parent(path) is None {
        gs2 == gs
    } else {
        let par = spec_parent(path)->Some_0;
        if exists|k: int| 0 <= k < gs.len() && (#[trigger] gs[k].dir)@ == par {
            let k = choose|k: int| 0 <= k < gs.len() && (#[trigger] gs[k].dir)@ == par;
            &&& gs2.len() == gs.len()
            &&& (forall|m: int| 0 <= m < gs.len() && m != k ==> gs2[m] == gs[m])
            &&& gs2[k].dir == gs[k].dir
            &&& views(gs2[k].files@) == views(gs[k].files@).push(path)
        } else {
            &&& gs2.len() == gs.len() + 1
            &&& (forall|m: int| 0 <= m < gs.len() ==> gs2[m] == gs[m])
            &&& gs2.last().dir@ == par
            &&& views(gs2.last().files@) == seq![path]
        }
    }
}

/// Adds a file to the map grouped by its parent directory, if the file's
/// format is known. Files without a parent directory are skipped.
pub fn add_file_to_map(files_by_dir: &mut Vec<DirGroup>, file_path: &str)
    requires
        dirs_unique(old(files_by_dir)@),
    ensures
        dirs_unique(final(files_by_dir)@),
        spec_added(old(files_by_dir)@, final(files_by_dir)@, file_path@),
{
    let fmt = FileFormat::from_path(file_path);
    if !fmt.is_known() {
        return ;
    }
    let par = match parent_of(file_path) {
        None => {
            return ;
        },
        Some(p) => p,
    };
    let n = files_by_dir.len();
    let mut k: usize = 0;
    while k < n
        invariant
            n == files_by_dir@.len(),
            k <= n,
            files_by_dir@ == old(files_by_dir)@,
            dirs_unique(files_by_dir@),
            spec_format_of(file_path@) != FileFormat::Unknown,
            spec_parent(file_path@) == Some(par@),
            forall|m: int| 0 <= m < k ==> (#[trigger] files_by_dir@[m].dir)@ != par@,
        decreases n - k,
    {
        if files_by_dir[k].dir == par {
            let ghost pre = files_by_dir@;
            let mut g = files_by_dir.remove(k);
            g.files.push(file_path.to_owned());
            files_by_dir.insert(k, g);
            proof {
                assert(files_by_dir@.len() == pre.len());
                assert(forall|m: int|
                    0 <= m < pre.len() && m != k ==> #[trigger] files_by_dir@[m] == pre[m]);
                assert(files_by_dir@[k as int].dir == pre[k as int].dir);
                assert(views(files_by_dir@[k as int].files@) =~= views(pre[k as int].files@).push(
                    file_path@,
                ));
                assert(pre[k as int].dir@ == par@);
                let kk = choose|m: int|
                    0 <= m < pre.len() && (#[trigger] pre[m].dir)@ == par@;
                if kk != k as int {
                    if kk < k as int {
                        assert((pre[kk].dir)@ != (pre[k as int].dir)@);
                    } else {
                        assert((pre[k as int].dir)@ != (pre[kk].dir)@);
                    }
                    assert(false);
                }
                assert(spec_added(pre, files_by_dir@, file_path@));
                assert forall|i: int, j: int|
                    0 <= i < j < files_by_dir@.len() implies (#[trigger] files_by_dir@[i].dir)@
                    != (#[trigger] files_by_dir@[j].dir)@ by {
                    assert(files_by_dir@[i].dir == pre[i].dir);
                    assert(files_by_dir@[j].dir == pre[j].dir);
                    assert((pre[i].dir)@ != (pre[j].dir)@);
                }
            }
            return ;
        }
        k = k + 1;
    }
    let ghost pre = files_by_dir@;
    let mut files: Vec<String> = Vec::new();
    files.push(file_path.to_owned());
    let g = DirGroup { dir: par, files };
    files_by_dir.push(g);
    proof {
        assert(views(files_by_dir@.last().files@) =~= seq![file_path@]);
        assert(forall|m: int| 0 <= m < pre.len() ==> #[trigger] files_by_dir@[m] == pre[m]);
        assert(files_by_dir@.last().dir@ == par@);
        assert forall|i: int, j: int|
            0 <= i < j < files_by_dir@.len() implies (#[trigger] files_by_dir@[i].dir)@
            != (#[trigger] files_by_dir@[j].dir)@ by {
            if j < pre.len() {
                assert((pre[i].dir)@ != (pre[j].dir)@);
            } else {
                assert(files_by_dir@[i].dir == pre[i].dir);
                assert((pre[i].dir)@ != par@);
            }
        }
    }
}

/// Sorts the files of every group by the track comparator. Groups keep
/// their directories and their files; an already ordered group comes back
/// unchanged.
pub fn sort_groups(files_by_dir: &mut Vec<DirGroup>)
    ensures
        final(files_by_dir)@.len() == old(files_by_dir)@.len(),
        forall|k: int|
            0 <= k < old(files_by_dir)@.len() ==> {
                &&& (#[trigger] final(files_by_dir)@[k]).dir == old(files_by_dir)@[k].dir
                &&& sorted_by_track(final(files_by_dir)@[k].files@)
                &&& final(files_by_dir)@[k].files@.to_multiset() == old(files_by_dir)@[k].files@.to_multiset()
                &&& (sorted_by_track(old(files_by_dir)@[k].files@) ==> final(files_by_dir)@[k].files@ == old(files_by_dir)@[k].files@)
            },
{
    let n = files_by_dir.len();
    let mut k: usize = 0;
    while k < n
        invariant
            n == files_by_dir@.len(),
            n == old(files_by_dir)@.len(),
            k <= n,
            forall|m: int| k <= m < n ==> #[trigger] files_by_dir@[m] == old(files_by_dir)@[m],
            forall|m: int|
                0 <= m < k ==> {
                    &&& (#[trigger] files_by_dir@[m]).dir == old(files_by_dir)@[m].dir
                    &&& sorted_by_track(files_by_dir@[m].files@)
                    &&& files_by_dir@[m].files@.to_multiset() == old(files_by_dir)@[m].files@.to_multiset()
                    &&& (sorted_by_track(old(files_by_dir)@[m].files@) ==> files_by_dir@[m].files@
                        == old(files_by_dir)@[m].files@)
                },
        decreases n - k,
    {
        let ghost pre = files_by_dir@;
        let mut g = files_by_dir.remove(k);
        sort_files(&mut g.files);
        files_by_dir.insert(k, g);
        proof {
            assert(forall|m: int| 0 <= m < n && m != k ==> #[trigger] files_by_dir@[m] == pre[m]);
            assert(files_by_dir@[k as int].dir == pre[k as int].dir);
            assert(sorted_by_track(files_by_dir@[k as int].files@));
            assert(files_by_dir@[k as int].files@.to_multiset() == pre[k as int].files@.to_multiset());
            assert(sorted_by_track(pre[k as int].files@) ==> files_by_dir@[k as int].files@
                == pre[k as int].files@);
        }
        k = k + 1;
    }
}

/// The run's whole state: files grouped by directory once discovery has
/// fed them in, the external tool paths, and the resolver site address.
pub struct RustyCov {
    pub files: Option<Vec<DirGroup>>,
    pub deps: Option<DependencyPaths>,
    pub cov_address: Option<String>,
}

impl RustyCov {
    /// A fresh state: nothing discovered, no tools, the default site.
    pub fn new() -> (s: RustyCov)
        ensures
            s.files is None,
            s.deps is None,
            s.cov_address matches Some(a) && a@ == "https://covers.musichoarders.xyz"@,
    {
        RustyCov {
            files: None,
            deps: None,
            cov_address: Some("https://covers.musichoarders.xyz".to_owned()),
        }
    }

    /// Stores what a discovery walk gathered: a walk that found nothing
    /// leaves the state untouched, so an earlier population survives.
    pub fn store_discovered(&mut self, files_by_dir: Vec<DirGroup>)
        ensures
            files_by_dir@.len() == 0 ==> *final(self) == *old(self),
            files_by_dir@.len() > 0 ==> final(self).files == Some(files_by_dir)
                && final(self).deps == old(self).deps && final(self).cov_address == old(
                self,
            ).cov_address,
    {
        if files_by_dir.len() > 0 {
            self.files = Some(files_by_dir);
        }
    }
}

/// One resolver answer: a release, its cover image and where to fetch it.
#[derive(Debug)]
pub struct Picked {
    pub big_cover_url: String,
    pub release_info: ReleaseInfo,
    pub cover_info: CoverInfo,
}

/// What the resolver reports of the release itself.
#[derive(Debug)]
pub struct ReleaseInfo {
    pub title: String,
    pub artist: String,
    pub date: String,
    pub tracks: Option<u32>,
}

/// What the resolver reports of the cover image; none of it re-verified.
#[derive(Debug)]
pub struct CoverInfo {
    pub format: String,
    pub height: u32,
    pub width: u32,
    pub size: u64,
}

/// The raw optional fields of a resolver answer, before defaults.
pub struct PickedFields {
    pub big_cover_url: Option<String>,
    pub title: Option<String>,
    pub artist: Option<String>,
    pub date: Option<String>,
    pub tracks: Option<u64>,
    pub format: Option<String>,
    pub height: Option<u64>,
    pub width: Option<u64>,
    pub size: Option<u64>,
}

impl Picked {
    /// Builds an answer from whatever fields were present: absent strings
    /// become placeholders, an absent URL becomes empty, absent numbers
    /// become 0, and wide dimensions are truncated as the wire format is.
    pub fn from_fields(f: PickedFields) -> (p: Picked)
        ensures
            p.big_cover_url@ == (match f.big_cover_url {
                Some(u) => u@,
                None => Seq::<char>::empty(),
            }),
            p.release_info.title@ == (match f.title {
                Some(t) => t@,
                None => "Unknown Title"@,
            }),
            p.release_info.artist@ == (match f.artist {
                Some(a) => a@,
                None => "Unknown Artist"@,
            }),
            p.release_info.date@ == (match f.date {
                Some(d) => d@,
                None => "Unknown Date"@,
            }),
            p.release_info.tracks == (match f.tracks {
                Some(t) => Some((t % 0x1_0000_0000) as u32),
                None => None::<u32>,
            }),
            p.cover_info.format@ == (match f.format {
                Some(m) => m@,
                None => "Unknown Format"@,
            }),
            p.cover_info.height == (match f.height {
                Some(h) => (h % 0x1_0000_0000) as u32,
                None => 0u32,
            }),
            p.cover_info.width == (match f.width {
                Some(w) => (w % 0x1_0000_0000) as u32,
                None => 0u32,
            }),
            p.cover_info.size == (match f.size {
                Some(s) => s,
                None => 0u64,
            }),
    {
        let big_cover_url = match f.big_cover_url {
            Some(u) => u,
            None => String::new(),
        };
        let title = match f.title {
            Some(t) => t,
            None => "Unknown Title".to_owned(),
        };
        let artist = match f.artist {
            Some(a) => a,
            None => "Unknown Artist".to_owned(),
        };
        let date = match f.date {
            Some(d) => d,
            None => "Unknown Date".to_owned(),
        };
        let tracks = match f.tracks {
            Some(t) => Some((t % 0x1_0000_0000) as u32),
            None => None,
        };
        let format = match f.format {
            Some(m) => m,
            None => "Unknown Format".to_owned(),
        };
        let height = match f.height {
            Some(h) => (h % 0x1_0000_0000) as u32,
            None => 0,
        };
        let width = match f.width {
            Some(w) => (w % 0x1_0000_0000) as u32,
            None => 0,
        };
        let size = match f.size {
            Some(s) => s,
            None => 0,
        };
        Picked {
            big_cover_url,
            release_info: ReleaseInfo { title, artist, date, tracks },
            cover_info: CoverInfo { format, height, width, size },
        }
    }
}

} // verus!
