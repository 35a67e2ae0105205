use aws_env::path::{
    extension, file_name, file_stem, find_last, join, parts, path_precedes, precedes,
    relative_to, same_path, same_text, PartKind,
};
use std::path::{Component, Path};
use aws_env::utils::{config_dir, drop_in_dir, root_file, strip_homedir};
use aws_env::FileSource;

fn some(s: &str) -> Option<String> {
    Some(s.to_string())
}

const SPELLINGS: [&str; 44] = [
    "",
    "/",
    "//",
    ".",
    "./",
    "..",
    "../",
    "/.",
    "/..",
    "a",
    "a/",
    "a//",
    "a/.",
    "a/./",
    "a/..",
    "./a",
    ".//a",
    "../a",
    "/a",
    "//a",
    "/a/b",
    "/a//b",
    "/a/./b",
    "/a/b/",
    "/a/b/.",
    "/a/../b",
    "a/b",
    "a.b",
    "a.b/c",
    "/x/a/b",
    "/x/a.b",
    "/x/a.gpg/",
    "/x/b/",
    "/d/x",
    "/d/x/",
    "/d/.hidden",
    "/d/.hidden.gpg",
    "/d/trailing.",
    "/d/archive.tar.gz",
    "/d/...",
    "/d/..a",
    "/home/u/.aws/credentials",
    "/home/u/.aws/credentials/",
    "/home/u//.aws/./credentials",
];

fn text<T: AsRef<Path>>(o: Option<T>) -> Option<String> {
    o.map(|s| s.as_ref().to_str().unwrap().to_string())
}

#[test]
fn file_name_is_the_last_component() {
    assert_eq!(some("credentials"), file_name("/home/u/.aws/credentials"));
    assert_eq!(some("50-a.asc"), file_name("credentials.d/50-a.asc"));
    assert_eq!(some("plain"), file_name("plain"));
    assert_eq!(some(".hidden"), file_name("/d/.hidden"));
    assert_eq!(some("..."), file_name("/d/..."));
    assert_eq!(some("bin"), file_name("/usr/bin/"));
    assert_eq!(some("foo.txt"), file_name("foo.txt/."));
    assert_eq!(some("foo.txt"), file_name("foo.txt/.//"));
    assert_eq!(None, file_name(""));
    assert_eq!(None, file_name("/"));
    assert_eq!(None, file_name("."));
    assert_eq!(None, file_name("foo.txt/.."));
    assert_eq!(None, file_name("/d/.."));
    assert_eq!(None, file_name(".."));
    for p in SPELLINGS {
        assert_eq!(text(Path::new(p).file_name()), file_name(p), "{:?}", p);
    }
}

#[test]
fn file_stem_stops_at_the_last_dot() {
    assert_eq!(some("99-something"), file_stem("/d/99-something.ini"));
    assert_eq!(some("99-something"), file_stem("/d/99-something.asc"));
    assert_eq!(some("archive.tar"), file_stem("/d/archive.tar.gz"));
    assert_eq!(some("credentials"), file_stem("/home/u/.aws/credentials"));
    assert_eq!(some(".hidden"), file_stem("/d/.hidden"));
    assert_eq!(some(".hidden"), file_stem("/d/.hidden.gpg"));
    assert_eq!(some("trailing"), file_stem("/d/trailing."));
    assert_eq!(some("é"), file_stem("/d/é.ini"));
    assert_eq!(some("d"), file_stem("/d/"));
    assert_eq!(some("b"), file_stem("/x/b/"));
    assert_eq!(None, file_stem("/d/.."));
    assert_eq!(None, file_stem("/"));
    for p in SPELLINGS {
        assert_eq!(text(Path::new(p).file_stem()), file_stem(p), "{:?}", p);
    }
}

#[test]
fn extension_starts_after_the_last_dot() {
    assert_eq!(some("ini"), extension("/d/99-something.ini"));
    assert_eq!(some("gz"), extension("/d/archive.tar.gz"));
    assert_eq!(some(""), extension("/d/trailing."));
    assert_eq!(some("gpg"), extension("/d/.hidden.gpg"));
    assert_eq!(some("gpg"), extension("/x/a.gpg/"));
    assert_eq!(None, extension("/d/.hidden"));
    assert_eq!(None, extension("/home/u/.aws/credentials"));
    assert_eq!(None, extension("/d.d/name"));
    assert_eq!(None, extension("/d/.."));
    assert_eq!(None, extension(""));
    for p in SPELLINGS {
        assert_eq!(text(Path::new(p).extension()), extension(p), "{:?}", p);
    }
}

#[test]
fn parts_are_the_components() {
    for p in SPELLINGS {
        let expected: Vec<(PartKind, String)> = Path::new(p)
            .components()
            .map(|c| match c {
                Component::RootDir => (PartKind::RootDir, "/".to_string()),
                Component::CurDir => (PartKind::CurDir, ".".to_string()),
                Component::ParentDir => (PartKind::ParentDir, "..".to_string()),
                Component::Normal(n) => (PartKind::Normal, n.to_str().unwrap().to_string()),
                Component::Prefix(_) => unreachable!(),
            })
            .collect();
        let got: Vec<(PartKind, String)> =
            parts(p).iter().map(|x| (x.kind, p[x.start..x.end].to_string())).collect();
        assert_eq!(expected, got, "{:?}", p);
    }
}

#[test]
fn same_path_and_order_go_by_components() {
    assert!(same_path("/x/a/b", "/x/a//b/"));
    assert!(same_path("/home/u/.aws/credentials", "/home/u//.aws/./credentials/"));
    assert!(!same_path("a", "./a"));
    assert!(!same_path("/a", "a"));
    assert!(path_precedes("/x/a/b", "/x/a.b"));
    assert!(!path_precedes("/x/a.b", "/x/a/b"));
    assert!(path_precedes("a/b", "a.x/b"));
    assert!(path_precedes("/d/00-c", "/d/50-a"));
    assert!(path_precedes("/d/50-a", "/d/50-a.asc"));
    assert!(!path_precedes("/d/x", "/d/x/"));
    for a in SPELLINGS {
        for b in SPELLINGS {
            assert_eq!(Path::new(a) == Path::new(b), same_path(a, b), "{:?} {:?}", a, b);
            assert_eq!(Path::new(a) < Path::new(b), path_precedes(a, b), "{:?} {:?}", a, b);
        }
    }
}

#[test]
fn relative_to_and_join_agree_with_the_standard_paths() {
    for a in SPELLINGS {
        for b in SPELLINGS {
            let stripped =
                Path::new(a).strip_prefix(b).ok().map(|r| r.to_str().unwrap().to_string());
            assert_eq!(stripped, relative_to(a, b), "{:?} {:?}", a, b);
            assert_eq!(Path::new(a).join(b).to_str().unwrap(), join(a, b), "{:?} {:?}", a, b);
        }
    }
}

#[test]
fn find_last_gives_the_last_position() {
    assert_eq!(Some(4), find_last("a.b.c", '.').map(|i| i + 1));
    assert_eq!(Some(0), find_last(".abc", '.'));
    assert_eq!(None, find_last("abc", '.'));
    assert_eq!(None, find_last("", '.'));
    assert_eq!(Some(2), find_last("éé/x", '/'));
}

#[test]
fn join_puts_one_separator_between() {
    assert_eq!("/home/u/.aws", join("/home/u", ".aws"));
    assert_eq!("/home/u/.aws", join("/home/u/", ".aws"));
    assert_eq!("/.aws", join("/", ".aws"));
    assert_eq!(".aws", join("", ".aws"));
    assert_eq!("/etc", join("/home/u", "/etc"));
    assert_eq!("~/", join("~", ""));
    assert_eq!("a/b/c", join("a", "b/c"));
}

#[test]
fn precedes_is_the_lexicographic_order() {
    assert!(precedes("", "a"));
    assert!(!precedes("", ""));
    assert!(!precedes("a", ""));
    assert!(precedes("a", "b"));
    assert!(!precedes("b", "a"));
    assert!(precedes("50-a", "50-a.asc"));
    assert!(precedes("/d/00-c", "/d/50-a"));
    assert!(precedes("/d/98-other-thing.asc", "/d/99-something.ini"));
    assert!(!precedes("/d/x", "/d/x"));
    assert!(precedes("a.x/b", "a/b"));
    assert!(!path_precedes("a.x/b", "a/b"));
    assert!(precedes("z", "é"));
    assert_eq!("abc" < "abd", precedes("abc", "abd"));
}

#[test]
fn same_text_compares_characters() {
    assert!(same_text("", ""));
    assert!(same_text("asc", "asc"));
    assert!(!same_text("asc", "asd"));
    assert!(!same_text("asc", "as"));
    assert!(!same_text("", "a"));
    assert!(same_text("é/", "é/"));
}

#[test]
fn relative_to_cuts_at_a_component_boundary() {
    assert_eq!(some(".aws/credentials"), relative_to("/home/u/.aws/credentials", "/home/u"));
    assert_eq!(some(".aws/credentials"), relative_to("/home/u/.aws/credentials", "/home/u/"));
    assert_eq!(some(".aws/credentials"), relative_to("/home/u//.aws/credentials/", "/home//u"));
    assert_eq!(some(""), relative_to("/home/u", "/home/u"));
    assert_eq!(some(""), relative_to("/home/u/", "/home/u"));
    assert_eq!(some("x"), relative_to("/x", "/"));
    assert_eq!(some("x"), relative_to("x", ""));
    assert_eq!(some("/x"), relative_to("/x", ""));
    assert_eq!(None, relative_to("/home/user/.aws", "/home/u"));
    assert_eq!(None, relative_to("/home", "/home/u"));
    assert_eq!(None, relative_to("/etc/passwd", "/home/u"));
}

#[test]
fn locations_under_home() {
    assert_eq!("/home/u/.aws", config_dir("/home/u"));
    assert_eq!("/home/u/.aws/credentials", root_file("/home/u"));
    assert_eq!("/home/u/.aws/credentials.d", drop_in_dir("/home/u"));
    assert_eq!("/.aws/credentials", root_file("/"));
}

#[test]
fn strip_homedir_abbreviates_home() {
    assert_eq!(some("~/.aws/credentials"), strip_homedir("/home/u/.aws/credentials", "/home/u"));
    assert_eq!(some("~/"), strip_homedir("/home/u", "/home/u"));
    assert_eq!(None, strip_homedir("/etc/aws", "/home/u"));
}

#[test]
fn from_path_reads_encryption_off_the_extension() {
    for path in ["/d/a.asc", "/d/a.gpg", "/d/a.pgp", "b.c.asc", "/x/a.gpg/", "/x/a.asc/."] {
        let source = FileSource::from_path(path);
        assert_eq!(path, source.path);
        assert!(source.encrypted, "{}", path);
    }
    for path in ["/d/a.ini", "/d/a", "/d/.asc", "/d/asc", "/d/a.asc.txt", "/d/a.ASC", "/d.asc/a", ""] {
        let source = FileSource::from_path(path);
        assert_eq!(path, source.path);
        assert!(!source.encrypted, "{}", path);
    }
}

#[test]
fn prefix_is_the_stem_except_for_the_canonical_file() {
    let home = some("/home/u");
    assert_eq!(None, FileSource::from_path("/home/u/.aws/credentials").prefix_in(&home));
    assert_eq!(
        some("credentials"),
        FileSource::from_path("/home/v/.aws/credentials").prefix_in(&home)
    );
    assert_eq!(
        some("abc123"),
        FileSource::from_path("/home/u/.aws/credentials.d/abc123.ini").prefix_in(&home)
    );
    assert_eq!(
        some("abc123"),
        FileSource::from_path("/home/u/.aws/credentials.d/abc123.asc").prefix_in(&home)
    );
    assert_eq!(some("credentials"), FileSource::from_path("/home/u/.aws/credentials").prefix_in(&None));
    assert_eq!(some(".aws"), FileSource::from_path("/home/u/.aws/").prefix_in(&home));
    assert_eq!(some("b"), FileSource::from_path("/x/b/").prefix_in(&home));
    assert_eq!(None, FileSource::from_path("/home/u/.aws/credentials/").prefix_in(&home));
    assert_eq!(None, FileSource::from_path("/home//u/.aws/./credentials").prefix_in(&home));
    assert!(FileSource::from_path("/home/u/.aws/credentials/").is_root_in(&home));
    assert!(!FileSource::from_path("/home/u/.aws/credentials.d/credentials").is_root_in(&home));
    assert_eq!(None, FileSource::from_path("/x/..").prefix_in(&home));
}

#[test]
fn source_for_the_current_user() {
    let home = dirs::home_dir().unwrap();
    let root = FileSource::from_path(home.join(".aws").join("credentials").to_str().unwrap());
    assert!(root.is_root());
    assert_eq!(None, root.prefix());
    assert_eq!(some("~/.aws/credentials"), root.home_path());

    let other = FileSource::from_path(
        home.join(".aws").join("credentials.d").join("10-x.gpg").to_str().unwrap(),
    );
    assert!(!other.is_root());
    assert_eq!(some("10-x"), other.prefix());
    assert_eq!(some("~/.aws/credentials.d/10-x.gpg"), other.home_path());
    assert_eq!(
        some("~/.aws/credentials.d/10-x.gpg"),
        other.home_path_in(&home.to_str().map(String::from))
    );
    assert_eq!(None, other.home_path_in(&None));
    assert_eq!(None, other.home_path_in(&some("/nowhere")));
    assert_eq!("~/.aws/credentials.d/10-x.gpg", other.shown_in(&home.to_str().map(String::from)));
    assert_eq!(other.path, other.shown_in(&None));
    assert_eq!(other.path, other.duplicate().path);
    assert!(other.duplicate().encrypted);
}
