use rusty_cov::image::MimeKind;
use rusty_cov::tags::{
    embed_cover_image, remove_embedded_art_from_file, Picture, PictureKind, Tag, TaggedFile,
};

fn front_covers_of(tag: &Tag) -> Vec<&Picture> {
    tag.pictures.iter().filter(|p| p.kind == PictureKind::FrontCover).collect()
}

#[test]
fn embed_into_bare_file_round_trip() {
    let mut file = TaggedFile::empty();
    embed_cover_image(&mut file, vec![1, 2, 3], MimeKind::Jpeg);
    assert_eq!(file.tags.len(), 1);
    assert_eq!(file.primary, Some(0));
    let fronts = front_covers_of(&file.tags[0]);
    assert_eq!(fronts.len(), 1);
    assert_eq!(fronts[0].data, vec![1, 2, 3]);
    assert_eq!(fronts[0].mime, MimeKind::Jpeg);

    remove_embedded_art_from_file(&mut file);
    assert_eq!(file.tags.len(), 1);
    assert!(file.tags[0].pictures.is_empty());
}

#[test]
fn embed_replaces_existing_front_cover() {
    let mut file = TaggedFile {
        tags: vec![Tag {
            pictures: vec![
                Picture { kind: PictureKind::FrontCover, mime: MimeKind::Png, data: vec![9] },
                Picture { kind: PictureKind::Other, mime: MimeKind::Other, data: vec![8] },
                Picture { kind: PictureKind::FrontCover, mime: MimeKind::Jpeg, data: vec![7] },
            ],
        }],
        primary: Some(0),
    };
    embed_cover_image(&mut file, vec![1, 2], MimeKind::Png);
    // A file never carries two front covers.
    let fronts = front_covers_of(&file.tags[0]);
    assert_eq!(fronts.len(), 1);
    assert_eq!(fronts[0].data, vec![1, 2]);
    assert_eq!(fronts[0].mime, MimeKind::Png);
    // The unrelated picture survived, in its place before the new cover.
    assert_eq!(file.tags[0].pictures.len(), 2);
    assert_eq!(file.tags[0].pictures[0].kind, PictureKind::Other);
    assert_eq!(file.tags[0].pictures[0].data, vec![8]);
}

#[test]
fn embed_twice_keeps_one_front_cover() {
    let mut file = TaggedFile::empty();
    embed_cover_image(&mut file, vec![1], MimeKind::Png);
    embed_cover_image(&mut file, vec![2], MimeKind::Jpeg);
    let fronts = front_covers_of(&file.tags[0]);
    assert_eq!(fronts.len(), 1);
    assert_eq!(fronts[0].data, vec![2]);
}

#[test]
fn embed_prefers_primary_tag() {
    let mut file = TaggedFile {
        tags: vec![Tag { pictures: vec![] }, Tag { pictures: vec![] }],
        primary: Some(1),
    };
    embed_cover_image(&mut file, vec![5], MimeKind::Png);
    assert!(file.tags[0].pictures.is_empty());
    assert_eq!(file.tags[1].pictures.len(), 1);
}

#[test]
fn embed_falls_back_to_first_tag() {
    let mut file = TaggedFile {
        tags: vec![Tag { pictures: vec![] }, Tag { pictures: vec![] }],
        primary: None,
    };
    embed_cover_image(&mut file, vec![5], MimeKind::Png);
    assert_eq!(file.tags[0].pictures.len(), 1);
    assert!(file.tags[1].pictures.is_empty());
    // The container gained no primary tag from the embed.
    assert_eq!(file.primary, None);
}

#[test]
fn strip_clears_tags_without_a_primary_too() {
    let mut file = TaggedFile {
        tags: vec![Tag {
            pictures: vec![Picture {
                kind: PictureKind::Other,
                mime: MimeKind::Other,
                data: vec![3],
            }],
        }],
        primary: None,
    };
    remove_embedded_art_from_file(&mut file);
    assert!(file.tags[0].pictures.is_empty());
}

#[test]
fn strip_clears_every_picture_of_every_tag() {
    let mut file = TaggedFile {
        tags: vec![
            Tag {
                pictures: vec![
                    Picture { kind: PictureKind::FrontCover, mime: MimeKind::Png, data: vec![1] },
                    Picture { kind: PictureKind::Other, mime: MimeKind::Other, data: vec![2] },
                ],
            },
            Tag {
                pictures: vec![Picture {
                    kind: PictureKind::Other,
                    mime: MimeKind::Other,
                    data: vec![4],
                }],
            },
        ],
        primary: Some(0),
    };
    remove_embedded_art_from_file(&mut file);
    assert!(file.tags[0].pictures.is_empty());
    assert!(file.tags[1].pictures.is_empty());
    assert_eq!(file.primary, Some(0));
}

#[test]
fn embed_then_strip_round_trip_without_primary() {
    // Embedding into a container whose tags lack a primary writes the
    // first tag; the strip pass still clears it.
    let mut file = TaggedFile {
        tags: vec![Tag { pictures: vec![] }, Tag { pictures: vec![] }],
        primary: None,
    };
    embed_cover_image(&mut file, vec![6], MimeKind::Jpeg);
    assert_eq!(file.tags[0].pictures.len(), 1);
    remove_embedded_art_from_file(&mut file);
    assert!(file.tags[0].pictures.is_empty());
    assert!(file.tags[1].pictures.is_empty());
}
