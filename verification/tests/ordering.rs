use aws_env::loader::rank::Rank;
use aws_env::{AwsCredentialsFile, FileSource, SourceSet};

fn text(p: std::path::PathBuf) -> String {
    p.to_str().unwrap().to_string()
}

fn source(path: &str, encrypted: bool) -> FileSource {
    FileSource { path: path.to_string(), encrypted }
}

#[test]
fn test_ordering() {
    let home = dirs::home_dir().unwrap();
    let aws = home.join(".aws");
    let credentials_d = aws.join("credentials.d");

    let mut sorted = SourceSet::new();

    sorted.insert(AwsCredentialsFile {
        profiles: Default::default(),
        file: FileSource {
            encrypted: false,
            path: text(credentials_d.join("50-a")),
        },
    });

    sorted.insert(AwsCredentialsFile {
        profiles: Default::default(),
        file: FileSource {
            encrypted: false,
            path: text(credentials_d.join("90-b")),
        },
    });

    sorted.insert(AwsCredentialsFile {
        profiles: Default::default(),
        file: FileSource {
            encrypted: false,
            path: text(credentials_d.join("00-c")),
        },
    });

    sorted.insert(AwsCredentialsFile {
        profiles: Default::default(),
        file: FileSource {
            encrypted: false,
            path: text(aws.join("credentials")),
        },
    });

    let sorted = sorted.into_vec();
    let mut iter = sorted.iter();

    assert_eq!(text(credentials_d.join("00-c")), iter.next().unwrap().file.path);
    assert_eq!(text(credentials_d.join("50-a")), iter.next().unwrap().file.path);
    assert_eq!(text(credentials_d.join("90-b")), iter.next().unwrap().file.path);
    assert_eq!(text(aws.join("credentials")), iter.next().unwrap().file.path);
}

#[test]
fn test_encrypted_ordering() {
    let home = dirs::home_dir().unwrap();
    let aws = home.join(".aws");
    let credentials_d = aws.join("credentials.d");

    let mut sorted = SourceSet::new();

    sorted.insert(AwsCredentialsFile {
        profiles: Default::default(),
        file: FileSource {
            encrypted: false,
            path: text(credentials_d.join("50-a")),
        },
    });

    sorted.insert(AwsCredentialsFile {
        profiles: Default::default(),
        file: FileSource {
            encrypted: true,
            path: text(credentials_d.join("50-a")),
        },
    });

    sorted.insert(AwsCredentialsFile {
        profiles: Default::default(),
        file: FileSource {
            encrypted: true,
            path: text(credentials_d.join("00-b")),
        },
    });

    sorted.insert(AwsCredentialsFile {
        profiles: Default::default(),
        file: FileSource {
            encrypted: false,
            path: text(credentials_d.join("00-b")),
        },
    });

    let sorted = sorted.into_vec();
    let mut iter = sorted.iter();
    let mut current = iter.next().unwrap();

    assert_eq!(text(credentials_d.join("00-b")), current.file.path);
    assert!(!current.file.encrypted);

    current = iter.next().unwrap();

    assert_eq!(text(credentials_d.join("00-b")), current.file.path);
    assert!(current.file.encrypted);

    current = iter.next().unwrap();

    assert_eq!(text(credentials_d.join("50-a")), current.file.path);
    assert!(!current.file.encrypted);

    current = iter.next().unwrap();

    assert_eq!(text(credentials_d.join("50-a")), current.file.path);
    assert!(current.file.encrypted);
}

#[test]
fn canonical_file_outranks_any_other() {
    let home = Some("/home/u".to_string());
    let root = source("/home/u/.aws/credentials", false);
    for other in [
        source("/home/u/.aws/credentials.d/zzz.asc", true),
        source("/home/u/.aws/credentials.d/credentials", false),
        source("/home/u/.aws/credentials.asc", true),
        source("/zzz", false),
        source("", true),
    ] {
        assert_eq!(Rank::Higher, root.rank(&other, &home));
        assert_eq!(Rank::Lower, other.rank(&root, &home));
    }
}

#[test]
fn encrypted_outranks_plain_of_the_same_stem() {
    let home = Some("/home/u".to_string());
    let encrypted = source("/home/u/.aws/credentials.d/50-a.asc", true);
    let plain = source("/home/u/.aws/credentials.d/50-a.ini", false);
    assert_eq!(Rank::Higher, encrypted.rank(&plain, &home));
    assert_eq!(Rank::Lower, plain.rank(&encrypted, &home));

    // the path alone would put the plain file first here
    let encrypted = source("/a/50-a.gpg", true);
    let plain = source("/b/50-a", false);
    assert_eq!(Rank::Higher, encrypted.rank(&plain, &home));
    assert_eq!(Rank::Lower, plain.rank(&encrypted, &home));
}

#[test]
fn paths_decide_where_no_other_rule_does() {
    let home = Some("/home/u".to_string());
    let a = source("/d/10-a.ini", false);
    let b = source("/d/20-b.asc", true);
    assert_eq!(Rank::Lower, a.rank(&b, &home));
    assert_eq!(Rank::Higher, b.rank(&a, &home));
    assert_eq!(Rank::Equal, a.rank(&a, &home));
    assert_eq!(Rank::Equal, b.rank(&source("/d/20-b.asc", true), &home));

    // the same stem and the same encryption: the paths decide
    let x = source("/d/same.asc", true);
    let y = source("/d/same.gpg", true);
    assert_eq!(Rank::Lower, x.rank(&y, &home));

    // a separator at the end counts for nothing
    let p = source("/d/x", true);
    let q = source("/d/x/", false);
    assert_eq!(Rank::Higher, p.rank(&q, &home));
    assert_eq!(Rank::Lower, q.rank(&p, &home));
    let p = source("/x/b/", true);
    let q = source("/x/b/", false);
    assert_eq!(Rank::Higher, p.rank(&q, &home));
    assert_eq!(Rank::Equal, q.rank(&source("/x//b", false), &home));

    // components decide, not characters
    assert_eq!(Rank::Lower, source("/x/a/b", false).rank(&source("/x/a.b", false), &home));

    // a path without a file name has no stem: the paths decide
    let p = source("/", true);
    let q = source("/", false);
    assert_eq!(Rank::Equal, p.rank(&q, &home));
}

#[test]
fn without_a_home_no_file_is_canonical() {
    let root = source("/home/u/.aws/credentials", false);
    let other = source("/home/u/.aws/credentials.d/zzz", false);
    assert_eq!(Rank::Lower, root.rank(&other, &None));
    assert!(!root.is_root_in(&None));
    assert!(root.is_root_in(&Some("/home/u".to_string())));
    assert!(!root.is_root_in(&Some("/home/v".to_string())));
}

#[test]
fn source_set_drops_a_file_that_ranks_equal() {
    let mut set = SourceSet::with_home(Some("/home/u".to_string()));
    assert_eq!(0, set.len());
    assert!(set.get(0).is_none());
    let file = |path: &str, encrypted: bool| AwsCredentialsFile {
        profiles: Default::default(),
        file: source(path, encrypted),
    };
    assert!(set.insert(file("/d/b", false)));
    assert!(set.insert(file("/d/a", false)));
    assert!(!set.insert(file("/d/b", false)));
    assert!(set.insert(file("/d/b", true)));
    assert_eq!(3, set.len());
    assert_eq!("/d/a", set.get(0).unwrap().file.path);
    assert_eq!("/d/b", set.get(1).unwrap().file.path);
    assert!(!set.get(1).unwrap().file.encrypted);
    assert!(set.get(2).unwrap().file.encrypted);
    assert!(set.get(3).is_none());
    assert_eq!(&Some("/home/u".to_string()), set.home_dir());
}

#[test]
fn files_are_equal_only_where_both_are_encrypted() {
    let file = |path: &str, encrypted: bool| AwsCredentialsFile {
        profiles: Default::default(),
        file: source(path, encrypted),
    };
    assert!(file("/d/a", true) == file("/d/a", true));
    assert!(file("/d/a", false) != file("/d/a", false));
    assert!(file("/d/a", true) != file("/d/a", false));
    assert!(file("/d/a", true) != file("/d/b", true));
    assert_eq!(source("/d/a", false), source("/d/a", false));
    assert_ne!(source("/d/a", false), source("/d/a", true));
    assert_ne!(source("/d/a", true), source("/d/b", true));
    assert_eq!(source("/d/a", true), source("/d//a/", true));
    assert!(file("/d/a", true) == file("/d/./a", true));
}
