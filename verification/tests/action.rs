use nm_mailmover::action::{destination, get_new_name, name_with_flags};

fn is_v4_uuid(s: &str) -> bool {
    let chars: Vec<char> = s.chars().collect();
    if chars.len() != 36 {
        return false;
    }
    for (i, c) in chars.iter().enumerate() {
        let ok = if i == 8 || i == 13 || i == 18 || i == 23 {
            *c == '-'
        } else {
            c.is_ascii_digit() || ('a'..='f').contains(c)
        };
        if !ok {
            return false;
        }
    }
    chars[14] == '4' && "89ab".contains(chars[19])
}

#[test]
fn get_new_name_test() {
    {
        let fname = get_new_name("1662362645_0.322365.foo,U=55582,FMD5=7e33429f656f1e6e9d79b29c3f82c57e:2,S");
        let parts: Vec<&str> = fname.split(':').collect();
        assert!(is_v4_uuid(parts[0]));
        assert_eq!("2,S", parts[1]);
        assert_eq!(2, parts.len());
    }

    {
        let fname = get_new_name("1662103908_2.328294.foo,U=55119,FMD5=7e33429f656f1e6e9d79b29c3f82c57e:2,RS");
        let parts: Vec<&str> = fname.split(':').collect();
        assert!(is_v4_uuid(parts[0]));
        assert_eq!("2,RS", parts[1]);
        assert_eq!(2, parts.len());
    }

    {
        let fname = get_new_name("1662103908_2.328294.foo,U=55119,FMD5=7e33429f656f1e6e9d79b29c3f82c57e:");
        let parts: Vec<&str> = fname.split(':').collect();
        assert!(is_v4_uuid(parts[0]));
        assert_eq!("", parts[1]);
        assert_eq!(2, parts.len());
    }

    {
        let fname = get_new_name("1662103908_2.328294.foo,U=55119,FMD5=7e33429f656f1e6e9d79b29c3f82c57e");
        let parts: Vec<&str> = fname.split(':').collect();
        assert!(is_v4_uuid(parts[0]));
        assert_eq!(1, parts.len());
    }
}

#[test]
fn new_names_differ() {
    assert_ne!(get_new_name("a:2,S"), get_new_name("a:2,S"));
}

#[test]
fn name_with_flags_keeps_the_last_flags_part() {
    assert_eq!("ID:2,S", name_with_flags("ID".to_string(), "x:y:2,S"));
    assert_eq!("ID", name_with_flags("ID".to_string(), "plain"));
    assert_eq!("ID:", name_with_flags("ID".to_string(), "x:"));
}

#[test]
fn destination_keeps_the_name() {
    let dest = destination("/home/u/mail", false, "/home/u/mail/INBOX/cur/123.host:2,S", "Trash");
    assert_eq!("/home/u/mail/Trash/cur/123.host:2,S", dest.ok().unwrap());
}

#[test]
fn destination_renames_keeping_the_flags() {
    let dest = destination("/home/u/mail", true, "/home/u/mail/INBOX/cur/123.host:2,RS", "Archive")
        .ok()
        .unwrap();
    let prefix = "/home/u/mail/Archive/cur/";
    assert!(dest.starts_with(prefix));
    let name = &dest[prefix.len()..];
    assert!(is_v4_uuid(&name[..36]));
    assert_eq!(":2,RS", &name[36..]);
}

#[test]
fn destination_needs_a_file_name() {
    let err = destination("/home/u/mail", false, "/", "Trash").err().unwrap();
    assert_eq!("Failed to get filename from /", err.message());
}
