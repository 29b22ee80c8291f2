//! The orchestrator's decisions: which of the two modes a run uses, the
//! name of a folder's shared artwork file, and the completion summary.
//! Spawning jobs and waiting on them is the caller's loop.

use vstd::prelude::*;

verus! {

/// The two mutually exclusive modes of a run.
#[derive(Debug, PartialEq, Eq, Structural, Clone, Copy)]
pub enum RunMode {
    PerFile,
    AlbumFolder,
}

/// Album-folder mode runs exactly when a shared cover name was supplied.
pub fn select_mode(album_folder_mode: &Option<String>) -> (m: RunMode)
    ensures
        (m == RunMode::AlbumFolder) == (album_folder_mode is Some),
{
    match album_folder_mode {
        Some(_) => RunMode::AlbumFolder,
        None => RunMode::PerFile,
    }
}

/// How many of a run's jobs ended well.
pub open spec fn count_true(s: Seq<bool>) -> nat
    decreases s.len(),
{
    if s.len() == 0 {
        0
    } else {
        count_true(s.drop_last()) + (if s.last() {
            1nat
        } else {
            0nat
        })
    }
}

/// Counts the finished jobs for the run's summary: one per job that
/// completed, failures counted out but never cancelling their siblings.
pub fn summary_count(results: &Vec<bool>) -> (n: usize)
    ensures
        n as nat == count_true(results@),
        n <= results@.len(),
{
    let total = results.len();
    let mut n: usize = 0;
    let mut i: usize = 0;
    proof {
        assert(results@.take(0) =~= Seq::<bool>::empty());
    }
    while i < total
        invariant
            total == results@.len(),
            i <= total,
            n <= i,
            n as nat == count_true(results@.take(i as int)),
        decreases total - i,
    {
        proof {
            assert(results@.take(i + 1).drop_last() =~= results@.take(i as int));
            assert(results@.take(i + 1).last() == results@[i as int]);
        }
        if results[i] {
            n = n + 1;
        }
        i = i + 1;
    }
    proof {
        assert(results@.take(total as int) =~= results@);
    }
    n
}

/// The shared artwork file of a folder: the configured name with the
/// cover format's extension.
pub fn art_file_name(album_name: &str, ext: &str) -> (r: String)
    ensures
        r@ == album_name@ + "."@ + ext@,
{
    let mut s = album_name.to_owned();
    s.append(".");
    s.append(ext);
    proof {
        assert(s@ =~= album_name@ + "."@ + ext@);
    }
    s
}

} // verus!
