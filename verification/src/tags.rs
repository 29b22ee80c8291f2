//! An in-memory model of a media file's tag container: the tags it holds,
//! which of them is the primary one, and the pictures inside each. The
//! pipeline's tag mutations are verified against this model; opening a
//! container from disk and saving it back are the caller's collaborator.

use vstd::prelude::*;

verus! {

use crate::image::MimeKind;

/// The slot a picture occupies: the front cover, or any other.
#[derive(Debug, PartialEq, Eq, Structural, Clone, Copy)]
pub enum PictureKind {
    FrontCover,
    Other,
}

/// One embedded picture.
#[derive(Debug)]
pub struct Picture {
    pub kind: PictureKind,
    pub mime: MimeKind,
    pub data: Vec<u8>,
}

/// One tag of a container: the pictures it embeds.
#[derive(Debug)]
pub struct Tag {
    pub pictures: Vec<Picture>,
}

/// A tag container: its tags, and which of them the format designates as
/// primary, if any.
#[derive(Debug)]
pub struct TaggedFile {
    pub tags: Vec<Tag>,
    pub primary: Option<usize>,
}

impl TaggedFile {
    /// A designated primary tag really is one of the tags.
    pub open spec fn wf(self) -> bool {
        match self.primary {
            Some(i) => (i as int) < self.tags@.len(),
            None => true,
        }
    }

    /// A container with no tags at all.
    pub fn empty() -> (f: TaggedFile)
        ensures
            f.wf(),
            f.tags@.len() == 0,
            f.primary is None,
    {
        TaggedFile { tags: Vec::new(), primary: None }
    }
}

/// Keeping a picture that is not a front cover, as a function value, so
/// that every use names the same function.
pub open spec fn not_front_pred() -> spec_fn(Picture) -> bool {
    |q: Picture| q.kind != PictureKind::FrontCover
}

/// Being a front cover, as a function value.
pub open spec fn front_pred() -> spec_fn(Picture) -> bool {
    |q: Picture| q.kind == PictureKind::FrontCover
}

/// The pictures that are not front covers, in their order.
pub open spec fn without_front(pics: Seq<Picture>) -> Seq<Picture> {
    pics.filter(not_front_pred())
}

/// The front-cover pictures, in their order.
pub open spec fn front_covers(pics: Seq<Picture>) -> Seq<Picture> {
    pics.filter(front_pred())
}

/// Filtering a single picture keeps it exactly when the predicate holds.
proof fn lemma_filter_singleton(p: Picture, pred: spec_fn(Picture) -> bool)
    ensures
        seq![p].filter(pred) == (if pred(p) {
            seq![p]
        } else {
            Seq::<Picture>::empty()
        }),
{
    reveal(Seq::filter);
    assert(seq![p].drop_last() =~= Seq::<Picture>::empty());
    assert(Seq::<Picture>::empty().filter(pred) =~= Seq::<Picture>::empty());
    assert(seq![p].last() == p);
    if pred(p) {
        assert(seq![p].filter(pred) =~= Seq::<Picture>::empty().push(p));
        assert(Seq::<Picture>::empty().push(p) =~= seq![p]);
    }
}

/// Which tag an embed writes: the primary one; failing that the first;
/// and into a file without tags, the one tag that gets created.
pub open spec fn spec_target_tag(f: TaggedFile) -> int {
    match f.primary {
        Some(i) => i as int,
        None => 0,
    }
}

/// The pictures of the target tag before the embed: none at all when the
/// tag does not exist yet.
pub open spec fn spec_target_pics(f: TaggedFile) -> Seq<Picture> {
    if f.tags@.len() == 0 {
        Seq::empty()
    } else {
        f.tags@[spec_target_tag(f)].pictures@
    }
}

/// Embeds a cover into the container model: picks the primary tag, else
/// the first, else creates the one tag of a bare file and makes it
/// primary; removes every front cover it held; and appends the new image
/// as the front cover. Other tags are untouched.
pub fn embed_cover_image(file: &mut TaggedFile, image_bytes: Vec<u8>, mime: MimeKind)
    requires
        old(file).wf(),
    ensures
        final(file).wf(),
        final(file).tags@.len() == (if old(file).tags@.len() == 0 {
            1int
        } else {
            old(file).tags@.len() as int
        }),
        old(file).tags@.len() == 0 ==> final(file).primary == Some(0usize),
        old(file).tags@.len() > 0 ==> final(file).primary == old(file).primary,
        forall|k: int|
            0 <= k < old(file).tags@.len() && k != spec_target_tag(*old(file))
                ==> final(file).tags@[k] == old(file).tags@[k],
        final(file).tags@[spec_target_tag(*old(file))].pictures@ == without_front(
            spec_target_pics(*old(file)),
        ) + seq![Picture { kind: PictureKind::FrontCover, mime, data: image_bytes }],
{
    if file.tags.len() == 0 {
        file.tags.push(Tag { pictures: Vec::new() });
        file.primary = Some(0);
    }
    let ti = match file.primary {
        Some(i) => i,
        None => 0,
    };
    let ghost mid = *file;
    let mut tag = file.tags.remove(ti);
    let ghost orig = tag.pictures@;
    let mut kept: Vec<Picture> = Vec::new();
    proof {
        assert(orig.take(0) =~= Seq::<Picture>::empty());
        assert(without_front(Seq::<Picture>::empty()) =~= Seq::<Picture>::empty()) by {
            reveal(Seq::filter);
        }
    }
    let mut done: usize = 0;
    let total: usize = tag.pictures.len();
    while tag.pictures.len() > 0
        invariant
            done + tag.pictures@.len() == total,
            total == orig.len(),
            tag.pictures@ =~= orig.skip(done as int),
            kept@ == without_front(orig.take(done as int)),
        decreases tag.pictures@.len(),
    {
        let p = tag.pictures.remove(0);
        proof {
            assert(p == orig[done as int]);
            assert(orig.take(done + 1) =~= orig.take(done as int) + seq![p]);
            Seq::filter_distributes_over_add(orig.take(done as int), seq![p], not_front_pred());
            lemma_filter_singleton(p, not_front_pred());
        }
        let front = match p.kind {
            PictureKind::FrontCover => true,
            PictureKind::Other => false,
        };
        if !front {
            kept.push(p);
        }
        done = done + 1;
    }
    proof {
        assert(orig.take(total as int) =~= orig);
        assert(kept@ == without_front(orig));
    }
    kept.push(Picture { kind: PictureKind::FrontCover, mime, data: image_bytes });
    file.tags.insert(ti, Tag { pictures: kept });
}

/// Strips every embedded picture, of any type, from every tag of the
/// container, until none remain.
pub fn remove_embedded_art_from_file(file: &mut TaggedFile)
    requires
        old(file).wf(),
    ensures
        final(file).wf(),
        final(file).tags@.len() == old(file).tags@.len(),
        final(file).primary == old(file).primary,
        forall|k: int|
            0 <= k < final(file).tags@.len() ==> (#[trigger] final(file).tags@[k]).pictures@.len()
                == 0,
{
    let n = file.tags.len();
    let mut k: usize = 0;
    while k < n
        invariant
            n == file.tags@.len(),
            k <= n,
            file.primary == old(file).primary,
            forall|m: int| 0 <= m < k ==> (#[trigger] file.tags@[m]).pictures@.len() == 0,
        decreases n - k,
    {
        let _dropped = file.tags.remove(k);
        file.tags.insert(k, Tag { pictures: Vec::new() });
        k = k + 1;
    }
}

/// Law: after an embed, the written tag holds exactly one front-cover
/// picture, and it carries the given bytes and type; what `embed_cover_image`
/// leaves in the target tag is the old pictures without their front covers
/// plus that one, so its front covers are that one alone.
pub proof fn lemma_embed_yields_one_front_cover(orig: Seq<Picture>, newpic: Picture)
    requires
        newpic.kind == PictureKind::FrontCover,
    ensures
        front_covers(without_front(orig) + seq![newpic]) =~= seq![newpic],
{
    Seq::filter_distributes_over_add(without_front(orig), seq![newpic], front_pred());
    broadcast use vstd::seq_lib::group_filter_ensures;

    assert forall|i: int| 0 <= i < without_front(orig).len() implies !(front_pred()(
        #[trigger] without_front(orig)[i],
    )) by {
        assert(not_front_pred()(without_front(orig)[i]));
    }
    without_front(orig).lemma_all_neg_filter_empty(front_pred());
    assert(front_covers(without_front(orig)) =~= Seq::<Picture>::empty());
    lemma_filter_singleton(newpic, front_pred());
}

} // verus!
