use aws_env::loader::ConfigError;
use aws_env::text::{decimal, digits, indented, lines};
use aws_env::Error;

fn all(parts: &[&str]) -> Vec<String> {
    parts.iter().map(|p| p.to_string()).collect()
}

#[test]
fn decimal_writes_integers() {
    assert_eq!("0", decimal(0));
    assert_eq!("2", decimal(2));
    assert_eq!("10", decimal(10));
    assert_eq!("127", decimal(127));
    assert_eq!("-1", decimal(-1));
    assert_eq!("-1090", decimal(-1090));
    assert_eq!("2147483647", decimal(i32::MAX));
    assert_eq!("-2147483648", decimal(i32::MIN));
    assert_eq!("18446744073709551615", digits(u64::MAX));
    assert_eq!("9", digits(9));
    for i in [-1000, -99, -10, -9, 0, 5, 9, 10, 11, 99, 100, 101, 65535] {
        assert_eq!(format!("{}", i), decimal(i));
    }
}

#[test]
fn lines_end_at_line_feeds() {
    assert_eq!(all(&[]), lines(""));
    assert_eq!(all(&["a"]), lines("a"));
    assert_eq!(all(&["a"]), lines("a\n"));
    assert_eq!(all(&["a", "b"]), lines("a\nb"));
    assert_eq!(all(&["a", "b"]), lines("a\r\nb\r\n"));
    assert_eq!(all(&[""]), lines("\n"));
    assert_eq!(all(&["", ""]), lines("\n\n"));
    assert_eq!(all(&["", "x"]), lines("\r\nx"));
    assert_eq!(all(&["a\r"]), lines("a\r"));
    assert_eq!(all(&["a\rb"]), lines("a\rb\n"));
    assert_eq!(all(&["a\r"]), lines("a\r\r\n"));
    assert_eq!(all(&["é", " ü "]), lines("é\n ü "));
    for text in ["", "a", "a\n", "a\nb", "a\r\nb\r\n", "\n", "\n\n", "a\r", "x\r\r\ny", "\r\n"] {
        let expected: Vec<String> = text.lines().map(String::from).collect();
        assert_eq!(expected, lines(text), "{:?}", text);
    }
}

#[test]
fn indented_puts_four_spaces_before_each_line() {
    assert_eq!("", indented(""));
    assert_eq!("    a", indented("a"));
    assert_eq!("    a", indented("a\n"));
    assert_eq!("    a\n    b", indented("a\nb\n"));
    assert_eq!("    \n    b", indented("\nb"));
}

#[test]
fn failures_in_words() {
    let home = Some("/home/u".to_string());
    let plain = Error::NoProfiles { path: "/home/u/.aws/credentials".to_string(), encrypted: false };
    assert_eq!(
        "Unable to read profiles from ~/.aws/credentials: file contains no profiles",
        plain.describe_in(&home)
    );
    assert_eq!(
        "Unable to read profiles from /home/u/.aws/credentials: file contains no profiles",
        plain.describe_in(&None)
    );
    let encrypted =
        Error::NoProfiles { path: "/home/u/.aws/credentials.d/x.gpg".to_string(), encrypted: true };
    assert_eq!(
        "Unable to read profiles from encrypted file /home/u/.aws/credentials.d/x.gpg: file contains no profiles",
        encrypted.describe_in(&home)
    );
    let long = Error::TooManyLines { path: "/home/u/.aws/credentials".to_string(), encrypted: false };
    assert_eq!(
        "Unable to read profiles from ~/.aws/credentials: text has too many lines to be parsed",
        long.describe_in(&home)
    );
    let failed = Error::Decrypt {
        path: "/d/x.gpg".to_string(),
        code: Some(2),
        stderr: Some("gpg: decryption failed\ngpg: No secret key\n".to_string()),
    };
    assert_eq!(
        "Unable to decrypt file with gpg (rc=2): /d/x.gpg\n    gpg: decryption failed\n    gpg: No secret key",
        failed.describe_in(&home)
    );
    let silent = Error::Decrypt { path: "/d/x.gpg".to_string(), code: Some(-1), stderr: None };
    assert_eq!("Unable to decrypt file with gpg (rc=-1): /d/x.gpg", silent.describe_in(&home));
    let empty = Error::Decrypt { path: "/d/x.gpg".to_string(), code: Some(1), stderr: Some(String::new()) };
    assert_eq!("Unable to decrypt file with gpg (rc=1): /d/x.gpg\n", empty.describe_in(&home));
    let killed = Error::Decrypt { path: "/d/x.gpg".to_string(), code: None, stderr: None };
    assert_eq!("Unable to decrypt file with gpg (rc=none): /d/x.gpg", killed.describe_in(&home));
    let unreadable = Error::UnreadableOutput { path: "/d/x.gpg".to_string() };
    assert_eq!("unable to read gpg stdout", unreadable.describe_in(&home));
    let denied = Error::Read { path: "/d/x".to_string(), message: "Permission denied (os error 13)".to_string() };
    assert_eq!("Permission denied (os error 13)", denied.describe_in(&home));
}

#[test]
fn configuration_failures_in_words() {
    assert_eq!("unable to get user's home directory", ConfigError::NoHome.describe());
    assert_eq!(
        "/home/u/.aws directory does not exist",
        ConfigError::MissingConfigDir { path: "/home/u/.aws".to_string() }.describe()
    );
    assert_eq!(
        "/home/u/.aws is not a directory",
        ConfigError::NotADirectory { path: "/home/u/.aws".to_string() }.describe()
    );
}
