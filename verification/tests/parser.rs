use aws_env::ini::parse;
use aws_env::loader::credentials_file::Decryption;
use aws_env::{AwsCredentialsFile, AwsProfile, Error, FileSource};
use indexmap::IndexMap;

fn plain(path: &str) -> FileSource {
    FileSource { path: path.to_string(), encrypted: false }
}

#[test]
fn section_with_both_keys_makes_one_profile() {
    let text = "[dev]\naws_access_key_id = AKIA1\naws_secret_access_key = s3cret\n";
    let profiles =
        AwsCredentialsFile::read_profiles(text.to_string(), &plain("/d/f.ini")).ok().unwrap();
    assert_eq!(1, profiles.len());
    let p = &profiles["dev"];
    assert_eq!("dev", p.name);
    assert_eq!("AKIA1", p.access_key_id);
    assert_eq!("s3cret", p.expose_secret_access_key());
    assert_eq!(None, p.expose_session_token());
    assert_eq!(plain("/d/f.ini"), p.file);
}

#[test]
fn section_with_token_makes_the_same_profile_with_the_token() {
    let text = "[dev]\naws_access_key_id=AKIA1\naws_secret_access_key=s3cret\naws_session_token=tok\n";
    let profiles =
        AwsCredentialsFile::read_profiles(text.to_string(), &plain("/d/f.ini")).ok().unwrap();
    assert_eq!(1, profiles.len());
    let p = &profiles["dev"];
    assert_eq!("dev", p.name);
    assert_eq!("AKIA1", p.access_key_id);
    assert_eq!("s3cret", p.expose_secret_access_key());
    assert_eq!(Some("tok"), p.expose_session_token());
}

#[test]
fn section_without_secret_key_makes_no_profile() {
    let text = "[dev]\naws_access_key_id=AKIA1\n[ok]\naws_access_key_id=A\naws_secret_access_key=S\n";
    let profiles =
        AwsCredentialsFile::read_profiles(text.to_string(), &plain("/d/f.ini")).ok().unwrap();
    let names: Vec<&str> = profiles.keys().map(|k| k.as_str()).collect();
    assert_eq!(vec!["ok"], names);
}

#[test]
fn keys_without_values_do_not_count() {
    let text = "[a]\naws_access_key_id\naws_secret_access_key=S\n\
                [b]\naws_access_key_id=A\naws_secret_access_key\n\
                [c]\naws_access_key_id=A\naws_secret_access_key=S\naws_session_token\n\
                [d]\naws_access_key_id=\naws_secret_access_key=\n";
    let profiles =
        AwsCredentialsFile::read_profiles(text.to_string(), &plain("/d/f.ini")).ok().unwrap();
    let names: Vec<&str> = profiles.keys().map(|k| k.as_str()).collect();
    assert_eq!(vec!["c", "d"], names);
    assert_eq!(None, profiles["c"].expose_session_token());
    assert_eq!("", profiles["d"].access_key_id);
    assert_eq!("", profiles["d"].expose_secret_access_key());
}

#[test]
fn profiles_follow_the_order_of_the_sections() {
    let text = "[z]\naws_access_key_id=1\naws_secret_access_key=a\n\
                [default]\n\
                [m]\naws_access_key_id=2\naws_secret_access_key=b\n\
                [a]\naws_secret_access_key=c\naws_access_key_id=3\n";
    let profiles =
        AwsCredentialsFile::read_profiles(text.to_string(), &plain("/d/f.ini")).ok().unwrap();
    let ids: Vec<&str> = profiles.values().map(|p| p.access_key_id.as_str()).collect();
    assert_eq!(vec!["1", "2", "3"], ids);
}

#[test]
fn text_without_profiles_is_refused() {
    for text in ["", "[default]\n", "[dev]\naws_access_key_id=A\n", "aws_access_key_id=A\naws_secret_access_key=S\n"] {
        match AwsCredentialsFile::read_profiles(text.to_string(), &plain("/d/f.ini")) {
            Err(Error::NoProfiles { path, encrypted }) => {
                assert_eq!("/d/f.ini", path);
                assert!(!encrypted);
            }
            _ => panic!("expected no profiles in {:?}", text),
        }
    }
}

#[test]
fn collect_profiles_reads_a_parsed_text() {
    let config = parse("[dev]\naws_access_key_id=A\naws_secret_access_key=S\n[x]\nk=v\n").unwrap();
    let source = FileSource { path: "/d/f.asc".to_string(), encrypted: true };
    let profiles = AwsCredentialsFile::collect_profiles(&config, &source).ok().unwrap();
    assert_eq!(1, profiles.len());
    assert_eq!(source, profiles["dev"].file);

    let none = parse("[x]\nk=v\n").unwrap();
    assert!(matches!(
        AwsCredentialsFile::collect_profiles(&none, &source),
        Err(Error::NoProfiles { encrypted: true, .. })
    ));
}

#[test]
fn load_builds_a_plain_file() {
    let text = "[dev]\naws_access_key_id=A\naws_secret_access_key=S\n";
    let file = AwsCredentialsFile::load("/d/f.asc", text.to_string()).ok().unwrap();
    assert_eq!("/d/f.asc", file.file.path);
    assert!(!file.file.encrypted);
    assert_eq!("A", file.get("dev").unwrap().access_key_id);
    assert!(!file.get("dev").unwrap().file.encrypted);

    match AwsCredentialsFile::load("/d/empty", "[default]\n".to_string()) {
        Err(Error::NoProfiles { path, encrypted }) => {
            assert_eq!("/d/empty", path);
            assert!(!encrypted);
        }
        _ => panic!("expected no profiles"),
    }
}

#[test]
fn load_encrypted_builds_an_encrypted_file() {
    let text = "[dev]\naws_access_key_id=A\naws_secret_access_key=S\n";
    let decryption = Decryption { code: Some(0), stdout: Some(text.to_string()), stderr: None };
    let file = AwsCredentialsFile::load_encrypted("/d/f.gpg", decryption).ok().unwrap();
    assert_eq!("/d/f.gpg", file.file.path);
    assert!(file.file.encrypted);
    let p = file.get("dev").unwrap();
    assert_eq!("S", p.expose_secret_access_key());
    assert_eq!(file.file, p.file);
}

#[test]
fn load_encrypted_reports_the_failure_of_the_helper() {
    let decryption = Decryption {
        code: Some(2),
        stdout: Some("[dev]\naws_access_key_id=A\naws_secret_access_key=S\n".to_string()),
        stderr: Some("gpg: decryption failed: No secret key\n".to_string()),
    };
    match AwsCredentialsFile::load_encrypted("/d/f.gpg", decryption) {
        Err(Error::Decrypt { path, code, stderr }) => {
            assert_eq!("/d/f.gpg", path);
            assert_eq!(Some(2), code);
            assert_eq!(Some("gpg: decryption failed: No secret key\n".to_string()), stderr);
        }
        _ => panic!("expected a decryption failure"),
    }

    let killed = Decryption { code: None, stdout: None, stderr: None };
    assert!(matches!(
        AwsCredentialsFile::load_encrypted("/d/f.gpg", killed),
        Err(Error::Decrypt { code: None, stderr: None, .. })
    ));
}

#[test]
fn load_encrypted_reports_output_that_cannot_be_read() {
    let decryption = Decryption { code: Some(0), stdout: None, stderr: Some(String::new()) };
    match AwsCredentialsFile::load_encrypted("/d/f.gpg", decryption) {
        Err(Error::UnreadableOutput { path }) => assert_eq!("/d/f.gpg", path),
        _ => panic!("expected unreadable output"),
    }
}

#[test]
fn load_encrypted_reports_a_text_without_profiles() {
    let decryption = Decryption { code: Some(0), stdout: Some("[x]\n".to_string()), stderr: None };
    match AwsCredentialsFile::load_encrypted("/d/f.gpg", decryption) {
        Err(Error::NoProfiles { path, encrypted }) => {
            assert_eq!("/d/f.gpg", path);
            assert!(encrypted);
        }
        _ => panic!("expected no profiles"),
    }
}

#[test]
fn push_replaces_a_profile_in_its_place() {
    let source = plain("/d/f");
    let mut file = AwsCredentialsFile { profiles: IndexMap::new(), file: source.clone() };
    for (name, id) in [("a", "1"), ("b", "2"), ("a", "3"), ("c", "4")] {
        file.push(AwsProfile::new(name.into(), id.into(), "s".into(), None, source.clone()));
    }
    let names: Vec<&str> = file.keys().iter().map(|k| k.as_str()).collect();
    let ids: Vec<&str> = file.values().iter().map(|p| p.access_key_id.as_str()).collect();
    assert_eq!(vec!["a", "b", "c"], names);
    assert_eq!(vec!["3", "2", "4"], ids);
    assert_eq!("3", file.get("a").unwrap().access_key_id);
    assert!(file.get("d").is_none());
}

#[test]
fn file_knows_its_namespace() {
    let home = Some("/home/u".to_string());
    let root = AwsCredentialsFile {
        profiles: IndexMap::new(),
        file: plain("/home/u/.aws/credentials"),
    };
    let drop_in = AwsCredentialsFile {
        profiles: IndexMap::new(),
        file: plain("/home/u/.aws/credentials.d/team.ini"),
    };
    assert!(root.is_root_in(&home));
    assert!(!drop_in.is_root_in(&home));
    assert_eq!(None, root.prefix_in(&home));
    assert_eq!(Some("team".to_string()), drop_in.prefix_in(&home));
    assert!(!drop_in.is_root());
    assert_eq!(Some("team".to_string()), drop_in.prefix());
    assert_eq!(aws_env::loader::rank::Rank::Higher, root.rank(&drop_in, &home));
}

#[test]
fn profile_knows_its_uri() {
    let home = Some("/home/u".to_string());
    let root = AwsProfile::new(
        "dev".into(),
        "A".into(),
        "S".into(),
        Some("T".into()),
        plain("/home/u/.aws/credentials"),
    );
    let other = AwsProfile::new(
        "prod".into(),
        "B".into(),
        "S2".into(),
        None,
        FileSource::from_path("/home/u/.aws/credentials.d/something.asc"),
    );
    assert_eq!("/dev", root.uri_in(&home));
    assert_eq!("something/prod", other.uri_in(&home));
    assert_eq!("credentials/dev", root.uri_in(&None));
    assert!(root.is_in_root_in(&home));
    assert!(!other.is_in_root_in(&home));
    assert_eq!(None, root.prefix_in(&home));
    assert_eq!(Some("something".to_string()), other.prefix_in(&home));
    assert_eq!("something/prod", other.uri());
    assert_eq!(Some("something".to_string()), other.prefix());
    assert!(!other.is_in_root());
    assert_eq!("S", root.expose_secret_access_key());
    assert_eq!(Some("T"), root.expose_session_token());
    assert_eq!("/x", aws_env::loader::profile::uri_from(&None, "x"));
    assert_eq!("p/x", aws_env::loader::profile::uri_from(&Some("p".to_string()), "x"));
}

#[test]
fn descriptions_leave_the_secrets_out() {
    let home = Some("/home/u".to_string());
    let source = plain("/home/u/.aws/credentials");
    let profile = AwsProfile::new(
        "dev".into(),
        "AKIA1".into(),
        "s3cret-key".into(),
        Some("s3cret-token".into()),
        source.clone(),
    );
    let text = profile.describe_in(&home);
    assert_eq!(
        "AWSProfile{name=dev, access_key_id=AKIA1, secret_access_key=***, file=~/.aws/credentials}",
        text
    );
    assert!(!text.contains("s3cret"));
    assert_eq!(
        "AWSProfile{name=dev, access_key_id=AKIA1, secret_access_key=***, file=/home/u/.aws/credentials}",
        profile.describe_in(&None)
    );
    assert!(!profile.describe().contains("s3cret"));

    let mut file = AwsCredentialsFile { profiles: IndexMap::new(), file: source.clone() };
    assert_eq!(
        "AWSCredentialsFile{profiles=, encrypted=false, file=~/.aws/credentials}",
        file.describe_in(&home)
    );
    file.push(profile);
    file.push(AwsProfile::new("prod".into(), "AKIA2".into(), "x".into(), None, source.clone()));
    assert_eq!(
        "AWSCredentialsFile{profiles=dev, prod, encrypted=false, file=~/.aws/credentials}",
        file.describe_in(&home)
    );
    let encrypted = AwsCredentialsFile {
        profiles: IndexMap::new(),
        file: FileSource::from_path("/etc/aws/x.gpg"),
    };
    assert_eq!(
        "AWSCredentialsFile{profiles=, encrypted=true, file=/etc/aws/x.gpg}",
        encrypted.describe_in(&home)
    );
    assert!(encrypted.describe().starts_with("AWSCredentialsFile{profiles=, encrypted=true"));
}

#[test]
fn token_line_inside_a_section_among_others_changes_that_profile_only() {
    let before = "[first]\naws_access_key_id=A1\naws_secret_access_key=S1\naws_session_token=T1\n\
                  [skipped]\naws_access_key_id=A0\n\
                  [dev]\naws_access_key_id = AKIA\n; a comment\naws_secret_access_key = s3cret\nregion = eu\n\
                  [last]\naws_secret_access_key=S9\naws_access_key_id=A9\n";
    let lines: Vec<&str> = before.lines().collect();
    // every place inside [dev]: after its header, between its keys, at its end
    for at in 7..=11 {
        let mut with_token = lines.clone();
        with_token.insert(at, "aws_session_token = tok");
        let after = with_token.join("\n");

        let m = AwsCredentialsFile::read_profiles(before.to_string(), &plain("/d/f")).ok().unwrap();
        let m2 = AwsCredentialsFile::read_profiles(after, &plain("/d/f")).ok().unwrap();

        let names: Vec<&str> = m.keys().map(|k| k.as_str()).collect();
        let names2: Vec<&str> = m2.keys().map(|k| k.as_str()).collect();
        assert_eq!(vec!["first", "dev", "last"], names);
        assert_eq!(names, names2);
        for name in names {
            let (p, p2) = (&m[name], &m2[name]);
            assert_eq!(p.name, p2.name);
            assert_eq!(p.access_key_id, p2.access_key_id);
            assert_eq!(p.expose_secret_access_key(), p2.expose_secret_access_key());
            assert_eq!(p.file, p2.file);
            if name == "dev" {
                assert_eq!(None, p.expose_session_token());
                assert_eq!(Some("tok"), p2.expose_session_token());
            } else {
                assert_eq!(p.expose_session_token(), p2.expose_session_token());
            }
        }
    }
}
