use aws_env::loader::candidate::{
    entry_name, Candidate, Reading, DECRYPTED_NOT_READ, READ_NOT_DECRYPTED,
};
use aws_env::loader::credentials_file::Decryption;
use aws_env::loader::{ConfigError, FileKind, ENCRYPTED_READS, PLAIN_READS};
use aws_env::{AwsCredentials, AwsCredentialsFile, AwsProfileLookup, Error};

#[test]
fn classify_goes_by_the_extension() {
    for path in ["/d/a.asc", "/d/a.gpg", "/d/a.pgp", "/d/a.b.gpg"] {
        assert_eq!(FileKind::Encrypted, AwsCredentials::classify(path), "{}", path);
    }
    for path in ["/d/a.ini", "/d/a", "/home/u/.aws/credentials", "/d/.gpg", "/d.gpg/a"] {
        assert_eq!(FileKind::Plain, AwsCredentials::classify(path), "{}", path);
    }
    for path in ["/d/a.txt", "/d/a.bak", "/d/a.", "/d/a.asc~", "/d/a.INI", "/d/a.ini.swp"] {
        assert_eq!(FileKind::Skipped, AwsCredentials::classify(path), "{}", path);
    }
}

#[test]
fn encrypted_reads_are_bounded_more_tightly() {
    assert_eq!(32, PLAIN_READS);
    assert_eq!(4, ENCRYPTED_READS);
}

#[test]
fn locate_needs_a_home() {
    assert!(matches!(AwsCredentials::locate(None), Err(ConfigError::NoHome)));
    let l = AwsCredentials::locate(Some("/home/u".to_string())).ok().unwrap();
    assert_eq!("/home/u", l.home);
    assert_eq!("/home/u/.aws", l.config_dir);
    assert_eq!("/home/u/.aws/credentials.d", l.drop_in_dir);
    assert_eq!("/home/u/.aws/credentials", l.root_file);
}

#[test]
fn configuration_directory_must_be_a_directory() {
    let l = AwsCredentials::locate(Some("/home/u".to_string())).ok().unwrap();
    assert!(l.confirm(true, true).is_ok());
    match l.confirm(false, false) {
        Err(ConfigError::MissingConfigDir { path }) => assert_eq!("/home/u/.aws", path),
        _ => panic!("expected a missing directory"),
    }
    assert!(matches!(l.confirm(false, true), Err(ConfigError::MissingConfigDir { .. })));
    match l.confirm(true, false) {
        Err(ConfigError::NotADirectory { path }) => assert_eq!("/home/u/.aws", path),
        _ => panic!("expected a file in the way"),
    }
}

#[test]
fn entries_lie_in_the_drop_in_directory() {
    let l = AwsCredentials::locate(Some("/home/u".to_string())).ok().unwrap();
    assert_eq!(Some("/home/u/.aws/credentials.d/b".to_string()), l.entry_path("b"));
    assert_eq!(Some("/home/u/.aws/credentials.d/10-x.gpg".to_string()), l.entry_path("10-x.gpg"));
    assert_eq!(Some("/home/u/.aws/credentials.d/...".to_string()), l.entry_path("..."));
    for name in ["", ".", "..", "/etc/passwd", "a/b", "../credentials", "a/", "./a", "/"] {
        assert_eq!(None, l.entry_path(name), "{:?}", name);
        assert!(!entry_name(name), "{:?}", name);
    }
    assert!(entry_name("credentials"));
    assert!(entry_name(".hidden"));
}

#[test]
fn candidate_is_loaded_by_the_kind_of_its_extension() {
    let text = "[p]\naws_access_key_id=A\naws_secret_access_key=S\n";
    let decrypted =
        || Reading::Decrypted(Decryption { code: Some(0), stdout: Some(text.to_string()), stderr: None });

    let plain = AwsCredentialsFile::load_candidate("/d/a.ini", Reading::Text(text.to_string()));
    let file = plain.unwrap().ok().unwrap();
    assert_eq!("/d/a.ini", file.file.path);
    assert!(!file.file.encrypted);

    let encrypted = AwsCredentialsFile::load_candidate("/d/a.gpg", decrypted());
    let file = encrypted.unwrap().ok().unwrap();
    assert_eq!("/d/a.gpg", file.file.path);
    assert!(file.file.encrypted);

    // a kind that is skipped, whatever was read
    assert!(AwsCredentialsFile::load_candidate("/d/notes.txt", Reading::Text(text.to_string())).is_none());
    assert!(AwsCredentialsFile::load_candidate("/d/notes.txt", decrypted()).is_none());
    assert!(AwsCredentialsFile::load_candidate("/d/a.bak", Reading::Failed("x".to_string())).is_none());

    // nothing was read
    match AwsCredentialsFile::load_candidate("/d/a", Reading::Failed("denied".to_string())) {
        Some(Err(Error::Read { path, message })) => {
            assert_eq!("/d/a", path);
            assert_eq!("denied", message);
        }
        _ => panic!("expected a failure to read"),
    }
    assert!(matches!(
        AwsCredentialsFile::load_candidate("/d/a.asc", Reading::Failed("denied".to_string())),
        Some(Err(Error::Read { .. }))
    ));

    // read in the way of the other kind
    match AwsCredentialsFile::load_candidate("/d/a.asc", Reading::Text(text.to_string())) {
        Some(Err(Error::Read { path, message })) => {
            assert_eq!("/d/a.asc", path);
            assert_eq!(READ_NOT_DECRYPTED, message);
        }
        _ => panic!("expected a failure to read"),
    }
    match AwsCredentialsFile::load_candidate("/d/a.ini", decrypted()) {
        Some(Err(Error::Read { message, .. })) => assert_eq!(DECRYPTED_NOT_READ, message),
        _ => panic!("expected a failure to read"),
    }

    // the helper failed
    let failed = Reading::Decrypted(Decryption { code: Some(2), stdout: None, stderr: None });
    assert!(matches!(
        AwsCredentialsFile::load_candidate("/d/a.pgp", failed),
        Some(Err(Error::Decrypt { code: Some(2), .. }))
    ));
}

#[test]
fn one_failed_decryption_does_not_lose_the_other_file() {
    let good = AwsCredentialsFile::load(
        "/home/u/.aws/credentials.d/10-team.ini",
        "[dev]\naws_access_key_id=A\naws_secret_access_key=S\n[prod]\naws_access_key_id=B\naws_secret_access_key=T\n"
            .to_string(),
    );
    let bad = AwsCredentialsFile::load_encrypted(
        "/home/u/.aws/credentials.d/20-team.gpg",
        Decryption { code: Some(2), stdout: None, stderr: Some("gpg: no key".to_string()) },
    );
    let (credentials, errors) =
        AwsCredentials::collect(Some("/home/u".to_string()), vec![bad, good]);
    assert_eq!(1, credentials.sources.len());
    assert_eq!(1, errors.len());
    assert!(matches!(&errors[0], Error::Decrypt { code: Some(2), .. }));

    let mut lookup = AwsProfileLookup::with_home(Some("/home/u".to_string()));
    lookup.insert_all(credentials.sources.into_vec());
    assert_eq!("A", lookup.by_name("dev").unwrap().access_key_id);
    assert_eq!("B", lookup.by_uri("10-team/prod").unwrap().access_key_id);
    assert_eq!(2, lookup.list().len());
}

#[test]
fn collect_orders_the_files_whatever_the_order_of_arrival() {
    let text = "[p]\naws_access_key_id=A\naws_secret_access_key=S\n";
    let load = |path: &str| AwsCredentialsFile::load(path, text.to_string());
    let paths = [
        "/home/u/.aws/credentials",
        "/home/u/.aws/credentials.d/50-a",
        "/home/u/.aws/credentials.d/00-c",
        "/home/u/.aws/credentials.d/90-b",
    ];
    let expected = vec![
        "/home/u/.aws/credentials.d/00-c",
        "/home/u/.aws/credentials.d/50-a",
        "/home/u/.aws/credentials.d/90-b",
        "/home/u/.aws/credentials",
    ];
    for rotation in 0..paths.len() {
        let outcomes = (0..paths.len()).map(|i| load(paths[(i + rotation) % paths.len()])).collect();
        let (credentials, errors) = AwsCredentials::collect(Some("/home/u".to_string()), outcomes);
        assert!(errors.is_empty());
        let got: Vec<String> =
            credentials.sources.into_vec().into_iter().map(|f| f.file.path).collect();
        assert_eq!(expected, got);
    }
}

#[test]
fn collect_of_nothing_is_empty() {
    let (credentials, errors) = AwsCredentials::collect(None, Vec::new());
    assert_eq!(0, credentials.sources.len());
    assert!(errors.is_empty());

    let failed = vec![
        Err(Error::Read { path: "/d/a".to_string(), message: "denied".to_string() }),
        Err(Error::UnreadableOutput { path: "/d/b.gpg".to_string() }),
    ];
    let (credentials, errors) = AwsCredentials::collect(None, failed);
    assert_eq!(0, credentials.sources.len());
    assert_eq!(2, errors.len());
    assert!(matches!(&errors[0], Error::Read { .. }));
    assert!(matches!(&errors[1], Error::UnreadableOutput { .. }));
}

#[test]
fn load_all_fails_only_for_want_of_the_configuration_directory() {
    let text = "[p]\naws_access_key_id=A\naws_secret_access_key=S\n";
    let drop_ins = || {
        vec![Candidate { name: "x".to_string(), reading: Reading::Failed("denied".to_string()) }]
    };
    let root = || Some(Reading::Text(text.to_string()));
    assert!(matches!(
        AwsCredentials::load_all(None, true, true, drop_ins(), root()),
        Err(ConfigError::NoHome)
    ));
    match AwsCredentials::load_all(Some("/home/u".to_string()), false, false, drop_ins(), root()) {
        Err(ConfigError::MissingConfigDir { path }) => assert_eq!("/home/u/.aws", path),
        _ => panic!("expected a missing directory"),
    }
    match AwsCredentials::load_all(Some("/home/u".to_string()), true, false, drop_ins(), root()) {
        Err(ConfigError::NotADirectory { path }) => assert_eq!("/home/u/.aws", path),
        _ => panic!("expected a file in the way"),
    }
    let (credentials, errors) =
        AwsCredentials::load_all(Some("/home/u".to_string()), true, true, drop_ins(), root())
            .ok()
            .unwrap();
    assert_eq!(1, credentials.sources.len());
    assert!(credentials.sources.get(0).unwrap().is_root_in(credentials.sources.home_dir()));
    assert_eq!(1, errors.len());
    match &errors[0] {
        Error::Read { path, message } => {
            assert_eq!("/home/u/.aws/credentials.d/x", path);
            assert_eq!("denied", message);
        }
        _ => panic!("expected a failure to read"),
    }

    let (credentials, errors) =
        AwsCredentials::load_all(Some("/home/u".to_string()), true, true, Vec::new(), None)
            .ok()
            .unwrap();
    assert_eq!(0, credentials.sources.len());
    assert!(errors.is_empty());
}

#[test]
fn load_all_leaves_out_what_is_no_credentials_file() {
    let text = "[p]\naws_access_key_id=A\naws_secret_access_key=S\n";
    let read = |name: &str| Candidate { name: name.to_string(), reading: Reading::Text(text.to_string()) };
    let decrypted = |name: &str| Candidate {
        name: name.to_string(),
        reading: Reading::Decrypted(Decryption { code: Some(0), stdout: Some(text.to_string()), stderr: None }),
    };
    let drop_ins = vec![
        read("notes.txt"),
        read("90-b"),
        read("../credentials"),
        decrypted("50-a.gpg"),
        read("/etc/passwd"),
        read("00-c.ini"),
        decrypted("backup.gpg~"),
        Candidate { name: "empty.ini".to_string(), reading: Reading::Text("[default]\n".to_string()) },
    ];
    let (credentials, errors) = AwsCredentials::load_all(
        Some("/home/u".to_string()),
        true,
        true,
        drop_ins,
        Some(Reading::Text(text.to_string())),
    )
    .ok()
    .unwrap();
    let sources = credentials.sources.into_vec();
    let got: Vec<(&str, bool)> = sources.iter().map(|f| (f.file.path.as_str(), f.file.encrypted)).collect();
    assert_eq!(
        vec![
            ("/home/u/.aws/credentials.d/00-c.ini", false),
            ("/home/u/.aws/credentials.d/50-a.gpg", true),
            ("/home/u/.aws/credentials.d/90-b", false),
            ("/home/u/.aws/credentials", false),
        ],
        got
    );
    for f in sources.iter() {
        assert!(f.profiles.len() >= 1);
    }
    assert_eq!(1, errors.len());
    assert!(matches!(&errors[0], Error::NoProfiles { .. }));
}
