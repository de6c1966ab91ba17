use booktui::media::may_be_probed;
use booktui::keyed::KeyedMap;
use booktui::library::{
    is_supported_audio, item_title, needs_metadata, parent_label, read_metadata_title,
    scan_library, title_from_media, title_from_tags, FoundFile, Listing, MediaTags, Node, Tag,
};
use booktui::storage::{CachedLibraryEntry, LibraryCache};

fn file(path: &str, modified: u64, title: Option<&str>) -> Node {
    Node::File(FoundFile {
        path: path.as_bytes().to_vec(),
        resolved: None,
        size: Some(10),
        modified: Some(modified),
        metadata_title: title.map(str::to_owned),
    })
}

fn listing(entries: Vec<Node>) -> Listing {
    Listing {
        entries: Some(entries),
    }
}

fn no_cache() -> LibraryCache {
    LibraryCache {
        entries: KeyedMap::new(),
    }
}

#[test]
fn supported_files_by_extension() {
    let supported = |path: &str| is_supported_audio(&path.as_bytes().to_vec());
    assert!(supported("/a/one.mp3"));
    assert!(supported("/a/one.M4B"));
    assert!(supported("one.x.Mp3"));
    assert!(!supported("/a/one.m4a"));
    assert!(!supported("/a/mp3"));
    assert!(!supported("/a/.mp3"));
    assert!(!supported("/"));
    assert!(!is_supported_audio(&b"/a/one.\xff".to_vec()));
}

#[test]
fn titles_and_groups_come_from_paths() {
    assert_eq!(item_title(&b"/a/b/One Two.mp3".to_vec()), "One Two");
    assert_eq!(item_title(&b"/a/b/\xff.mp3".to_vec()), "Unknown");
    assert_eq!(parent_label(&b"/a/Author/One.mp3".to_vec()), "Author");
    assert_eq!(parent_label(&b"/One.mp3".to_vec()), "Library Root");
    assert_eq!(parent_label(&b"One.mp3".to_vec()), "Library Root");
    assert_eq!(parent_label(&b"/\xff/One.mp3".to_vec()), "Library Root");
}

#[test]
fn scan_finds_audio_in_path_order() {
    let mut cache = no_cache();
    let tree = vec![
        listing(vec![
            file("/b/two.mp3", 5, None),
            Node::Directory(listing(vec![
                file("/b/a/one.M4B", 6, Some("The First")),
                file("/b/a/cover.jpg", 6, None),
            ])),
            Node::Directory(Listing { entries: None }),
        ]),
        listing(vec![file("/b/two.mp3", 5, None)]),
    ];
    let items = scan_library(&tree, &mut cache);
    let paths: Vec<&[u8]> = items.iter().map(|item| item.path.as_slice()).collect();
    assert_eq!(paths, [b"/b/a/one.M4B".as_slice(), b"/b/two.mp3"]);
    assert_eq!(items[0].title, "The First");
    assert_eq!(items[0].metadata_title.as_deref(), Some("The First"));
    assert_eq!(items[0].extension, "m4b");
    assert_eq!(items[0].parent_label, "a");
    assert_eq!(items[0].modified_epoch_seconds, 6);
    assert_eq!(items[0].canonical_key, "/b/a/one.M4B");
    assert_eq!(items[0].media_key, "one.M4B::10");
    assert_eq!(items[1].title, "two");
    assert_eq!(items[1].metadata_title, None);
    assert_eq!(cache.entries.len(), 2);
}

#[test]
fn scan_uses_the_cache_while_times_agree() {
    let mut cache = no_cache();
    cache.entries.insert(
        "/b/one.mp3".to_owned(),
        CachedLibraryEntry {
            title: "Cached".to_owned(),
            metadata_title: Some("Cached".to_owned()),
            extension: "mp3".to_owned(),
            parent_label: "b".to_owned(),
            modified_epoch_seconds: 7,
        },
    );
    cache.entries.insert(
        "/gone.mp3".to_owned(),
        CachedLibraryEntry {
            title: "Gone".to_owned(),
            metadata_title: None,
            extension: "mp3".to_owned(),
            parent_label: "x".to_owned(),
            modified_epoch_seconds: 7,
        },
    );
    let path = b"/b/one.mp3".to_vec();
    assert!(!needs_metadata(&path, &None, Some(7), &cache));
    assert!(needs_metadata(&path, &None, Some(8), &cache));
    assert!(needs_metadata(&b"/b/two.mp3".to_vec(), &None, Some(7), &cache));
    assert!(!needs_metadata(&b"/b/two.txt".to_vec(), &None, Some(7), &cache));

    let items = scan_library(&vec![listing(vec![file("/b/one.mp3", 7, None)])], &mut cache);
    assert_eq!(items[0].title, "Cached");
    assert_eq!(cache.entries.len(), 1);
    assert!(cache.entries.get("/gone.mp3").is_none());

    let items = scan_library(&vec![listing(vec![file("/b/one.mp3", 8, None)])], &mut cache);
    assert_eq!(items[0].title, "one");
    assert_eq!(cache.entries.get("/b/one.mp3").unwrap().title, "one");
    assert_eq!(cache.entries.get("/b/one.mp3").unwrap().modified_epoch_seconds, 8);
}

#[test]
fn scanning_again_changes_nothing() {
    let tree = vec![listing(vec![
        file("/b/one.mp3", 7, Some("First")),
        file("/b/two.mp3", 7, None),
    ])];
    let again = vec![listing(vec![
        file("/b/one.mp3", 7, None),
        file("/b/two.mp3", 7, None),
    ])];
    let mut cache = no_cache();
    let first = scan_library(&tree, &mut cache);
    let second = scan_library(&again, &mut cache);
    let titles = |items: &Vec<booktui::library::LibraryItem>| -> Vec<String> {
        items.iter().map(|item| item.title.clone()).collect()
    };
    assert_eq!(titles(&first), ["First", "two"]);
    assert_eq!(titles(&second), titles(&first));
}

fn tag(marked: bool, key: &str, value: &str) -> Tag {
    Tag {
        standard: if marked {
            Some("TrackTitle".to_owned())
        } else {
            Some("Album".to_owned())
        },
        key: key.to_owned(),
        value: value.to_owned(),
    }
}

#[test]
fn titles_come_from_tags() {
    let marked = vec![tag(false, "title", "By name"), tag(true, "", "Marked")];
    assert_eq!(title_from_tags(&marked).as_deref(), Some("Marked"));
    let named = vec![tag(false, "ARTIST", "x"), tag(false, "TITLE", "By name")];
    assert_eq!(title_from_tags(&named).as_deref(), Some("By name"));
    assert_eq!(title_from_tags(&vec![tag(false, "album", "x")]), None);
    let both = MediaTags {
        container: Some(marked),
        leading: Some(named),
    };
    assert_eq!(title_from_media(&both).as_deref(), Some("Marked"));
    let leading = MediaTags {
        container: Some(vec![]),
        leading: Some(vec![tag(false, "Title", "Before")]),
    };
    assert_eq!(title_from_media(&leading).as_deref(), Some("Before"));
    let none = MediaTags {
        container: None,
        leading: None,
    };
    assert_eq!(title_from_media(&none), None);
}

fn atom(kind: &[u8; 4], body: &[u8]) -> Vec<u8> {
    let mut bytes = ((body.len() + 8) as u32).to_be_bytes().to_vec();
    bytes.extend_from_slice(kind);
    bytes.extend_from_slice(body);
    bytes
}

fn audiobook(title: &[u8]) -> Vec<u8> {
    let mut data = vec![0, 0, 0, 1, 0, 0, 0, 0];
    data.extend_from_slice(title);
    let list = atom(b"ilst", &atom(b"\xa9nam", &atom(b"data", &data)));
    let mut meta = vec![0, 0, 0, 0];
    meta.extend_from_slice(&list);
    let mut movie = atom(b"mvhd", &[0; 100]);
    movie.extend_from_slice(&atom(b"udta", &atom(b"meta", &meta)));
    let mut bytes = atom(b"ftyp", b"M4B \0\0\0\0M4B isom");
    bytes.extend_from_slice(&atom(b"moov", &movie));
    bytes.extend_from_slice(&atom(b"free", &[0; 64]));
    bytes
}

#[test]
fn title_embedded_in_an_m4b_is_read() {
    assert_eq!(
        read_metadata_title(audiobook("Über Träume".as_bytes())).as_deref(),
        Some("Über Träume")
    );
    assert_eq!(
        read_metadata_title(audiobook(b"Another")).as_deref(),
        Some("Another")
    );
}

fn mp3_with_title(title: &[u8]) -> Vec<u8> {
    let mut frame = b"TIT2".to_vec();
    frame.extend_from_slice(&((title.len() + 1) as u32).to_be_bytes());
    frame.extend_from_slice(&[0, 0, 3]);
    frame.extend_from_slice(title);
    let mut bytes = b"ID3\x04\x00\x00".to_vec();
    let size = frame.len() as u32;
    bytes.extend_from_slice(&[0, 0, (size >> 7) as u8 & 0x7f, size as u8 & 0x7f]);
    bytes.extend_from_slice(&frame);
    for _ in 0..8 {
        let mut audio = vec![0xff, 0xfb, 0x90, 0x00];
        audio.resize(417, 0);
        bytes.extend_from_slice(&audio);
    }
    bytes
}

#[test]
fn title_before_an_mp3_is_read() {
    assert_eq!(
        read_metadata_title(mp3_with_title(b"Tagged")).as_deref(),
        Some("Tagged")
    );
}

#[test]
fn unrecognised_contents_have_no_title() {
    assert_eq!(read_metadata_title(vec![]), None);
    assert_eq!(read_metadata_title(b"no media at all".to_vec()), None);
}

fn versioned(kind: &[u8; 4], fields: &[u32]) -> Vec<u8> {
    let mut body = vec![0; 4];
    for field in fields {
        body.extend_from_slice(&field.to_be_bytes());
    }
    atom(kind, &body)
}

fn stream_description() -> Vec<u8> {
    let mut body = vec![0, 0, 0, 0, 3, 25, 0, 1, 0, 4, 17, 0x40, 0x15, 0, 0, 0];
    body.extend_from_slice(&[0, 1, 0xf4, 0, 0, 1, 0xf4, 0, 5, 2, 0x12, 0x10, 6, 1, 2]);
    body
}

struct Parts {
    unit: u32,
    stream: Vec<u8>,
    chunks: Vec<u32>,
    durations: Vec<u32>,
    title: Vec<u8>,
}

fn parts() -> Parts {
    Parts {
        unit: 44_100,
        stream: stream_description(),
        chunks: vec![2, 1, 10, 1, 3, 7, 1],
        durations: vec![1, 4_000_000, 1024],
        title: atom(b"data", b"\0\0\0\x01\0\0\0\0Whole"),
    }
}

fn whole_audiobook(parts: &Parts) -> Vec<u8> {
    let mut entry = vec![0; 28];
    entry[17] = 2;
    entry.extend_from_slice(&atom(b"esds", &parts.stream));
    let mut description = vec![0, 0, 0, 0, 0, 0, 0, 1];
    description.extend_from_slice(&atom(b"mp4a", &entry));
    let mut tables = atom(b"stsd", &description);
    tables.extend_from_slice(&versioned(b"stts", &parts.durations));
    tables.extend_from_slice(&versioned(b"stsc", &parts.chunks));
    tables.extend_from_slice(&versioned(b"stsz", &[0, 2, 300, 301]));
    tables.extend_from_slice(&versioned(b"stco", &[1, 40]));
    let mut media = versioned(b"mdhd", &[0, 0, parts.unit, 88_200, 0x55c4_0000]);
    media.extend_from_slice(&versioned(b"hdlr", &[0, 0x736f_756e, 0, 0, 0]));
    media.extend_from_slice(&atom(b"minf", &atom(b"stbl", &tables)));
    let mut track = atom(b"tkhd", &[0; 84]);
    track.extend_from_slice(&atom(b"mdia", &media));
    let mut meta = vec![0, 0, 0, 0];
    meta.extend_from_slice(&atom(b"ilst", &atom(b"\xa9nam", &parts.title)));
    let mut movie = atom(b"mvhd", &[0; 100]);
    movie.extend_from_slice(&atom(b"trak", &track));
    movie.extend_from_slice(&atom(b"udta", &atom(b"meta", &meta)));
    let mut bytes = atom(b"ftyp", b"M4B \0\0\0\0M4B isom");
    bytes.extend_from_slice(&atom(b"moov", &movie));
    bytes.extend_from_slice(&atom(b"mdat", &[0x55; 640]));
    bytes
}

#[test]
fn title_of_a_whole_m4b_is_read() {
    assert!(may_be_probed(&whole_audiobook(&parts())));
    let title = read_metadata_title(whole_audiobook(&parts()));
    assert_eq!(title.as_deref(), Some("Whole"));
}

#[test]
fn broken_m4b_files_have_no_title() {
    let timeless = Parts { unit: 0, ..parts() };
    let undescribed = Parts {
        stream: vec![0; 4],
        ..parts()
    };
    let short_stream = Parts {
        stream: vec![0, 0, 0, 0, 3, 2, 0, 1, 0],
        ..parts()
    };
    let short_decoder = Parts {
        stream: vec![0, 0, 0, 0, 3, 18, 0, 1, 0, 4, 12, 0x40, 0, 0, 0, 0, 0, 0, 0, 0, 0, 0, 0, 0],
        ..parts()
    };
    let no_first_chunk = Parts {
        chunks: vec![1, 0, 10, 1],
        ..parts()
    };
    let many_samples = Parts {
        chunks: vec![2, 1, 0x8000_0000, 1, 3, 7, 1],
        ..parts()
    };
    let endless = Parts {
        durations: vec![2, u32::MAX, u32::MAX, u32::MAX, u32::MAX],
        ..parts()
    };
    let short_value = Parts {
        title: atom(b"data", &[0; 7]),
        ..parts()
    };
    let cut = [
        timeless,
        undescribed,
        short_stream,
        short_decoder,
        no_first_chunk,
        many_samples,
        endless,
        short_value,
    ];
    for parts in &cut {
        let contents = whole_audiobook(parts);
        assert!(!may_be_probed(&contents));
        assert_eq!(read_metadata_title(contents), None);
    }
    let mut long_atom = atom(b"ftyp", b"M4B \0\0\0\0M4B isom");
    long_atom.extend_from_slice(&[0, 0, 0, 1]);
    long_atom.extend_from_slice(b"free");
    long_atom.extend_from_slice(&[0xff; 8]);
    assert!(!may_be_probed(&long_atom));
    assert_eq!(read_metadata_title(long_atom), None);
}

/// A whole audiobook in which some bytes stand after others.
fn with_inserted(after: &[u8], inserted: &[u8]) -> Vec<u8> {
    let mut bytes = whole_audiobook(&parts());
    let at = bytes
        .windows(after.len())
        .position(|window| window == after)
        .unwrap();
    let at = at + after.len();
    bytes.splice(at..at, inserted.iter().copied());
    bytes
}

/// Makes every atom of some kinds longer.
fn lengthened(mut bytes: Vec<u8>, kinds: &[&[u8; 4]], by: u32) -> Vec<u8> {
    for kind in kinds {
        let at = bytes.windows(4).position(|window| window == *kind).unwrap();
        let length = u32::from_be_bytes(bytes[at - 4..at].try_into().unwrap()) + by;
        bytes[at - 4..at].copy_from_slice(&length.to_be_bytes());
    }
    bytes
}

fn assert_titled(contents: Vec<u8>) {
    assert!(may_be_probed(&contents));
    assert_eq!(read_metadata_title(contents).as_deref(), Some("Whole"));
}

#[test]
fn odd_m4b_files_have_a_title() {
    // A description that is of no sound says that it reaches further than it can.
    let mut text = whole_audiobook(&parts());
    let at = text.windows(4).position(|window| window == b"mp4a").unwrap();
    text[at..at + 4].copy_from_slice(b"text");
    text[at - 4..at].copy_from_slice(&[0x7f, 0, 0, 0]);
    assert_titled(text);

    // What stands in a description of sound reaches beyond it, but not beyond what is around it.
    let outer: [&[u8; 4]; 7] = [b"moov", b"trak", b"mdia", b"minf", b"stbl", b"stsd", b"esds"];
    let longer = with_inserted(&stream_description(), &[0; 6]);
    assert_titled(lengthened(longer, &outer, 6));

    // The last table says nothing of its length.
    let mut open_end = whole_audiobook(&parts());
    let at = open_end.windows(4).position(|window| window == b"stco").unwrap();
    open_end[at - 4..at].copy_from_slice(&[0; 4]);
    assert_titled(open_end);

    // A header without a unit of time stands before one that has one.
    let timeless = versioned(b"mdhd", &[0, 0, 0, 88_200, 0x55c4_0000]);
    let tkhd = atom(b"tkhd", &[0; 84]);
    let mut head = tkhd.clone();
    let bytes = whole_audiobook(&parts());
    let at = bytes.windows(tkhd.len()).position(|window| window == tkhd).unwrap() + tkhd.len();
    head.extend_from_slice(&bytes[at..at + 8]);
    let outer: [&[u8; 4]; 3] = [b"moov", b"trak", b"mdia"];
    let doubled = with_inserted(&head, &timeless);
    assert_titled(lengthened(doubled, &outer, timeless.len() as u32));

    // An index of segments points far away.
    let mut index = vec![1, 0, 0, 0, 0, 0, 0, 0, 0, 0, 0, 0];
    index.extend_from_slice(&[0; 8]);
    index.extend_from_slice(&[0xf0, 0, 0, 0, 0, 0, 0, 0]);
    index.extend_from_slice(&[0; 4]);
    let mut far = whole_audiobook(&parts());
    far.extend_from_slice(&atom(b"sidx", &index));
    assert_titled(far);
    let mut too_far = whole_audiobook(&parts());
    index[20..28].copy_from_slice(&[0xff; 8]);
    too_far.extend_from_slice(&atom(b"sidx", &index));
    assert!(!may_be_probed(&too_far));
}

#[test]
fn other_broken_files_have_no_title() {
    let mut late = vec![0; 40];
    late.extend_from_slice(&[0xff, 0xf1, 0x50, 0x80, 0, 0xe0, 0, 0, 0, 0, 0, 0, 0, 0, 0, 0]);
    assert!(!may_be_probed(&late));
    assert_eq!(read_metadata_title(late), None);
    let mut restricted = b"ID3\x04\x00\x40\0\0\0\x40".to_vec();
    restricted.extend_from_slice(&[0, 0, 0, 8, 1, 0x10, 1, 0x40]);
    restricted.resize(128, 0);
    assert!(!may_be_probed(&restricted));
    assert_eq!(read_metadata_title(restricted), None);
}
