use tatar::SourceFile;
use tatar::TarEntry;
use tatar::TarError;
use tatar::Tatar;

fn file(path: &str, modified: i64, contents: &[u8]) -> SourceFile {
    SourceFile { path: path.to_string(), modified, contents: contents.to_vec() }
}

fn record_of(f: &SourceFile) -> Vec<u8> {
    let (header, record) = Tatar::write_tar_entry(&f.path, f.modified as u64, &f.contents);
    Tatar::write_checksum(record, header)
}

#[test]
fn part_name_replaces_the_suffix() {
    assert_eq!(Tatar::part_name("out.tar", 0), Ok("out.0".to_string()));
    assert_eq!(Tatar::part_name("out.tar", 1), Ok("out.1".to_string()));
    assert_eq!(Tatar::part_name("out.tar", 12), Ok("out.12".to_string()));
    assert_eq!(Tatar::part_name("dir/backup.tar", 305), Ok("dir/backup.305".to_string()));
}

#[test]
fn part_name_touches_only_a_suffix() {
    assert_eq!(Tatar::part_name("archive", 3), Ok("archive".to_string()));
    assert_eq!(Tatar::part_name("a.tar.gz", 3), Ok("a.tar.gz".to_string()));
    assert_eq!(Tatar::part_name("a.tar.tar", 3), Ok("a.tar.3".to_string()));
    assert_eq!(Tatar::part_name("atar", 3), Ok("atar".to_string()));
    assert_eq!(Tatar::part_name(".tar", 0), Ok(".0".to_string()));
    assert_eq!(Tatar::part_name("", 0), Ok("".to_string()));
}

#[test]
fn part_name_writes_the_index_in_decimal() {
    assert_eq!(Tatar::part_name("x.tar", 9), Ok("x.9".to_string()));
    assert_eq!(Tatar::part_name("x.tar", 10), Ok("x.10".to_string()));
    assert_eq!(Tatar::part_name("x.tar", 1000), Ok("x.1000".to_string()));
    assert_eq!(Tatar::part_name("x.tar", 4294967295), Ok("x.4294967295".to_string()));
}

#[test]
fn substitute_replaces_every_match() {
    assert_eq!(Tatar::substitute("a", "banana", 7), Ok("b.7n.7n.7".to_string()));
    assert_eq!(Tatar::substitute("z", "banana", 7), Ok("banana".to_string()));
}

#[test]
fn substitute_refuses_a_broken_pattern() {
    assert_eq!(Tatar::substitute("(", "out.tar", 0), Err(TarError::Pattern));
    assert_eq!(Tatar::substitute("[a", "out.tar", 0), Err(TarError::Pattern));
}

#[test]
fn three_files_make_three_parts_in_order() {
    let files = vec![
        file("a.txt", 1, b"first"),
        file("b.txt", 2, b"second"),
        file("c.txt", 3, b"third"),
    ];
    let entries = Tatar::tar_entries("out.tar", &files).unwrap();
    assert_eq!(
        entries,
        vec![
            TarEntry { part: "out.0".to_string(), file: "a.txt".to_string(), index: 0 },
            TarEntry { part: "out.1".to_string(), file: "b.txt".to_string(), index: 1 },
            TarEntry { part: "out.2".to_string(), file: "c.txt".to_string(), index: 2 },
        ]
    );
    let archive = Tatar::create_multi_tar("out.tar", &files).unwrap();
    assert_eq!(archive.len(), 3 * 1024 + 1024 + 1023);
    assert_eq!(&archive[0..1024], &record_of(&files[0])[..]);
    assert_eq!(&archive[1024..2048], &record_of(&files[1])[..]);
    assert_eq!(&archive[2048..3072], &record_of(&files[2])[..]);
    assert_eq!(&archive[0..5], b"a.txt");
    assert_eq!(&archive[1024..1029], b"b.txt");
    assert_eq!(&archive[2048..2053], b"c.txt");
    assert_eq!(&archive[512..517], b"first");
    assert_eq!(&archive[1536..1542], b"second");
    assert_eq!(&archive[2560..2565], b"third");
    assert!(archive[3072..].iter().all(|b| *b == 0));
    assert_eq!(archive[3072..].len(), 2047);
}

#[test]
fn a_path_of_one_hundred_bytes_is_left_out() {
    let long = "p".repeat(100);
    let short = "short0.txt";
    assert_eq!(short.len(), 10);
    let files = vec![file(&long, 1, b"left out"), file(short, 2, b"kept")];
    let entries = Tatar::tar_entries("out.tar", &files).unwrap();
    assert_eq!(
        entries,
        vec![TarEntry { part: "out.1".to_string(), file: short.to_string(), index: 1 }]
    );
    let archive = Tatar::create_multi_tar("out.tar", &files).unwrap();
    assert_eq!(archive.len(), 1024 + 1024 + 1023);
    assert_eq!(&archive[0..1024], &record_of(&files[1])[..]);
    assert_eq!(&archive[0..10], short.as_bytes());
    assert!(archive[1024..].iter().all(|b| *b == 0));
}

#[test]
fn a_file_left_out_leaves_a_gap_in_the_numbers() {
    let long = "q".repeat(150);
    let files = vec![
        file("a", 0, b""),
        file(&long, 0, b""),
        file(&long, 0, b""),
        file("d", 0, b""),
    ];
    let entries = Tatar::tar_entries("set.tar", &files).unwrap();
    let parts: Vec<&str> = entries.iter().map(|e| e.part.as_str()).collect();
    let places: Vec<usize> = entries.iter().map(|e| e.index).collect();
    assert_eq!(parts, vec!["set.0", "set.3"]);
    assert_eq!(places, vec![0, 3]);
}

#[test]
fn a_file_left_out_need_not_be_encodable() {
    let long = "r".repeat(200);
    let files = vec![file(&long, -1, b"whatever"), file("ok", 5, b"fine")];
    assert!(!files[0].is_encodable());
    let archive = Tatar::create_multi_tar("o.tar", &files).unwrap();
    assert_eq!(archive.len(), 1024 + 2047);
    assert_eq!(&archive[0..2], b"ok");
}

#[test]
fn an_archive_of_no_files_is_only_its_end() {
    let archive = Tatar::create_multi_tar("none.tar", &Vec::new()).unwrap();
    assert_eq!(archive, vec![0u8; 2047]);
    let long = "s".repeat(100);
    let archive = Tatar::create_multi_tar("none.tar", &vec![file(&long, 0, b"x")]).unwrap();
    assert_eq!(archive, vec![0u8; 2047]);
}

#[test]
fn single_archive_is_record_then_end() {
    let f = file("hello.txt", 1469000000, b"hello, world\n");
    let archive = Tatar::create_single_tar(&f);
    assert_eq!(archive.len(), 512 + 512 + 1024 + 1023);
    assert_eq!(&archive[..1024], &record_of(&f)[..]);
    assert_eq!(&archive[0..9], b"hello.txt");
    assert_eq!(&archive[124..136], b"00000000015\0");
    assert_eq!(&archive[136..148], b"12743624500\0");
    assert_eq!(&archive[148..156], b"007657\0 ");
    assert_eq!(&archive[512..525], b"hello, world\n");
    assert!(archive[525..].iter().all(|b| *b == 0));
}

#[test]
fn single_archive_of_an_empty_file() {
    let f = file("a.txt", 0, b"");
    let archive = Tatar::create_single_tar(&f);
    assert_eq!(archive.len(), 512 + 512 + 2047);
    assert_eq!(&archive[124..135], b"00000000000");
    assert_eq!(&archive[148..154], b"006724");
    assert!(archive[512..].iter().all(|b| *b == 0));
}

#[test]
fn single_archive_takes_a_name_of_one_hundred_bytes() {
    let name = "x".repeat(100);
    let f = file(&name, 0, b"");
    assert!(f.is_encodable());
    let archive = Tatar::create_single_tar(&f);
    assert_eq!(&archive[0..100], name.as_bytes());
    assert_eq!(&archive[148..154], b"035305");
    assert_eq!(archive.len(), 1024 + 2047);
}

#[test]
fn archive_length_follows_the_contents() {
    let sizes: Vec<usize> = vec![0, 1, 511, 512, 513, 1024, 1025, 5000];
    let mut files = Vec::new();
    let mut expected = 1024 + 1023;
    for (i, size) in sizes.iter().enumerate() {
        files.push(file(&format!("f{}", i), i as i64, &vec![b'z'; *size]));
        expected += 512 + Tatar::block_pad(*size);
        let single = Tatar::create_single_tar(&files[i]);
        assert_eq!(single.len(), 512 + Tatar::block_pad(*size) + 1024 + 1023);
    }
    files.push(file(&"w".repeat(120), 0, &vec![1u8; 3000]));
    let archive = Tatar::create_multi_tar("sizes.tar", &files).unwrap();
    assert_eq!(archive.len(), expected);
    assert_eq!(expected, 8 * 512 + (512 + 512 + 512 + 512 + 1024 + 1024 + 1536 + 5120) + 2047);
}

#[test]
fn merge_entries_joins_in_order() {
    assert_eq!(Tatar::merge_entries(vec![]), Vec::<u8>::new());
    assert_eq!(Tatar::merge_entries(vec![vec![1, 2], vec![], vec![3]]), vec![1, 2, 3]);
}

#[test]
fn finalize_appends_the_end_of_the_archive() {
    let archive = Tatar::finalize_tar(vec![5, 6, 7]);
    assert_eq!(archive.len(), 3 + 1024 + 1023);
    assert_eq!(&archive[..3], &[5, 6, 7]);
    assert!(archive[3..].iter().all(|b| *b == 0));
    assert_eq!(Tatar::finalize_tar(Vec::new()), vec![0u8; 2047]);
}

#[test]
fn write_tar_entries_follows_the_entries() {
    let files = vec![file("one", 1, b"1"), file("two", 2, b"22"), file("three", 3, b"333")];
    let entries = vec![
        TarEntry { part: "p.2".to_string(), file: "three".to_string(), index: 2 },
        TarEntry { part: "p.0".to_string(), file: "one".to_string(), index: 0 },
    ];
    let archive = Tatar::write_tar_entries(&entries, &files);
    assert_eq!(archive.len(), 2 * 1024 + 2047);
    assert_eq!(&archive[0..1024], &record_of(&files[2])[..]);
    assert_eq!(&archive[1024..2048], &record_of(&files[0])[..]);
    assert!(archive[2048..].iter().all(|b| *b == 0));
}
