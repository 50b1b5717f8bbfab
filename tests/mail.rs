use mailthread::{
    decode_folder_name, decode_folder_names, decode_words, email_from_message, encode_folder_name,
    last_body, parse_email, recent_uids, same_text, split_addresses, split_on, subjects_by_uid,
    Enumeration, EnumerationStep, Location, MessageIndex, MimeMessage, MimePart, ParseError,
    SearchStep, SubjectSearch, RECENT_LIMIT,
};

const DATE: &str = "Tue, 1 Jul 2003 10:52:37 +0200";

fn message(headers: &str, body: &str) -> Vec<u8> {
    format!("{}\r\n\r\n{}", headers, body).into_bytes()
}

fn simple(subject: &str) -> Vec<u8> {
    message(
        &format!("From: a@x.com\r\nDate: {}\r\nSubject: {}", DATE, subject),
        "hello",
    )
}

#[test]
fn folder_name_round_trip() {
    for name in ["INBOX", "INBOX/Sent & Old", "Отправленные", "Archive/2024/Ünïcödé-x", "&", "a-b&-c"] {
        let wire = encode_folder_name(name);
        assert!(wire.is_ascii());
        assert_eq!(decode_folder_name(&wire), Some(name.to_string()));
    }
}

#[test]
fn folder_name_known_encoding() {
    assert_eq!(encode_folder_name("Отправленные"), "&BB4EQgQ,BEAEMAQyBDsENQQ9BD0ESwQ1-");
    assert_eq!(encode_folder_name("Tom & Jerry"), "Tom &- Jerry");
    assert_eq!(decode_folder_name("&BB4EQgQ,BEAEMAQyBDsENQQ9BD0ESwQ1-"), Some("Отправленные".to_string()));
}

#[test]
fn folder_name_bad_run_rejected() {
    assert_eq!(decode_folder_name("&AB!-"), None);
    assert_eq!(decode_folder_name("&A-"), None);
    assert_eq!(decode_folder_name("&AAB-"), None);
    assert_eq!(decode_folder_name("no dash &here"), Some("no dash &here".to_string()));
}

#[test]
fn folder_names_skip_undecodable() {
    let wires = vec!["INBOX".to_string(), "&A-".to_string(), "&AOk-t&AOk-".to_string()];
    let (names, rejected) = decode_folder_names(&wires);
    assert_eq!(names, vec!["INBOX".to_string(), "été".to_string()]);
    assert_eq!(rejected, vec!["&A-".to_string()]);
}

#[test]
fn plain_header_passes_through() {
    for s in ["Hello world", "", "Re: what?", "a ? b ? c", "=?nothing"] {
        assert_eq!(decode_words(s), s);
    }
}

#[test]
fn encoded_word_is_decoded() {
    assert_eq!(decode_words("=?utf-8?q?caf=C3=A9?="), "café");
    assert_eq!(decode_words("=?utf-8?b?Y2Fmw6k=?="), "café");
}

#[test]
fn last_plain_part_wins() {
    let raw = message(
        &format!("From: a@x.com\r\nDate: {}\r\nContent-Type: multipart/mixed; boundary=\"b\"", DATE),
        "--b\r\nContent-Type: text/plain\r\n\r\nfirst\r\n--b\r\nContent-Type: text/plain\r\n\r\nsecond\r\n--b\r\nContent-Type: text/html\r\n\r\n<p>x</p>\r\n--b--\r\n",
    );
    let rec = parse_email(&raw, &MessageIndex::new()).ok().unwrap();
    assert_eq!(rec.plain_text, "second");
    assert_eq!(rec.html, "<p>x</p>");
}

#[test]
fn last_body_of_parts() {
    let parts = vec![
        MimePart { mimetype: "text/plain".to_string(), body: "one".to_string() },
        MimePart { mimetype: "text/html".to_string(), body: "h".to_string() },
        MimePart { mimetype: "text/plain".to_string(), body: "two".to_string() },
    ];
    assert_eq!(last_body(&parts, "text/plain"), "two");
    assert_eq!(last_body(&parts, "text/html"), "h");
    assert_eq!(last_body(&parts, "image/png"), "");
    assert_eq!(last_body(&Vec::new(), "text/plain"), "");
}

#[test]
fn address_field_splitting() {
    assert_eq!(
        split_addresses("a@x.com, b@y.com ,c@z.com"),
        vec!["a@x.com".to_string(), "b@y.com".to_string(), "c@z.com".to_string()]
    );
    assert_eq!(split_addresses("solo@x.com"), vec!["solo@x.com".to_string()]);
}

#[test]
fn split_keeps_empty_pieces() {
    assert_eq!(split_on("a,,b,", ','), vec!["a".to_string(), "".to_string(), "b".to_string(), "".to_string()]);
    assert_eq!(split_on("", ','), vec!["".to_string()]);
}

#[test]
fn same_text_compares_characters() {
    assert!(same_text("X", "X"));
    assert!(!same_text("X", "X "));
    assert!(!same_text("é", "e"));
}

#[test]
fn parsed_fields() {
    let raw = message(
        &format!(
            "From: a@x.com, b@y.com\r\nTo: c@z.com\r\nCc: d@w.com , e@v.com\r\nDate: {}\r\nSubject: Greetings",
            DATE
        ),
        "hello",
    );
    let rec = parse_email(&raw, &MessageIndex::new()).ok().unwrap();
    assert_eq!(rec.from, vec!["a@x.com".to_string(), "b@y.com".to_string()]);
    assert_eq!(rec.to, vec!["c@z.com".to_string()]);
    assert_eq!(rec.cc, vec!["d@w.com".to_string(), "e@v.com".to_string()]);
    assert!(rec.bcc.is_empty());
    assert_eq!(rec.subject, "Greetings");
    assert_eq!(rec.plain_text, "hello");
    assert_eq!(rec.html, "");
    assert_eq!(rec.timestamp.seconds, 1057049557);
    assert_eq!(rec.timestamp.offset, 7200);
    assert!(rec.parent.is_none());
    assert!(rec.attachments.is_empty());
}

#[test]
fn missing_subject_is_empty() {
    let raw = message(&format!("From: a@x.com\r\nDate: {}", DATE), "x");
    let rec = parse_email(&raw, &MessageIndex::new()).ok().unwrap();
    assert_eq!(rec.subject, "");
}

#[test]
fn missing_date_fails() {
    let raw = message("From: a@x.com\r\nSubject: no date", "x");
    assert!(matches!(parse_email(&raw, &MessageIndex::new()), Err(ParseError::MalformedDate)));
}

#[test]
fn unreadable_date_fails() {
    let raw = message("From: a@x.com\r\nDate: yesterday\r\nSubject: s", "x");
    assert!(matches!(parse_email(&raw, &MessageIndex::new()), Err(ParseError::MalformedDate)));
}

#[test]
fn parent_found_in_index() {
    let mut index = MessageIndex::new();
    index.insert("<id1@x>".to_string(), Location::new("INBOX", 7));
    let raw = message(&format!("From: a@x.com\r\nDate: {}\r\nIn-Reply-To: <id1@x>", DATE), "x");
    let rec = parse_email(&raw, &index).ok().unwrap();
    let parent = rec.parent.unwrap();
    assert_eq!(parent.folder, "INBOX");
    assert_eq!(parent.uid, 7);
}

#[test]
fn parent_absent_from_index() {
    let mut index = MessageIndex::new();
    index.insert("<id1@x>".to_string(), Location::new("INBOX", 7));
    let raw = message(&format!("From: a@x.com\r\nDate: {}\r\nIn-Reply-To: <other@x>", DATE), "x");
    let rec = parse_email(&raw, &index).ok().unwrap();
    assert!(rec.parent.is_none());
}

#[test]
fn record_from_message_value() {
    let msg = MimeMessage {
        from: Some("a@x.com ,b@y.com".to_string()),
        to: None,
        cc: None,
        bcc: Some("".to_string()),
        subject: Some("S".to_string()),
        in_reply_to: None,
        date: Some(DATE.to_string()),
        parts: vec![MimePart { mimetype: "text/plain".to_string(), body: "b".to_string() }],
    };
    let rec = email_from_message(&msg, &MessageIndex::new()).ok().unwrap();
    assert_eq!(rec.from, vec!["a@x.com".to_string(), "b@y.com".to_string()]);
    assert!(rec.to.is_empty());
    assert_eq!(rec.bcc, vec!["".to_string()]);
    assert_eq!(rec.plain_text, "b");
}

#[test]
fn index_insert_last_wins() {
    let mut index = MessageIndex::new();
    index.insert("<a>".to_string(), Location::new("INBOX", 1));
    index.insert("<b>".to_string(), Location::new("INBOX", 2));
    index.insert("<a>".to_string(), Location::new("Sent", 9));
    assert_eq!(index.len(), 2);
    let a = index.get("<a>").unwrap();
    assert_eq!((a.folder.as_str(), a.uid), ("Sent", 9));
    assert!(index.get("<c>").is_none());
}

#[test]
fn enumeration_builds_index() {
    let mut e = Enumeration::new(vec!["INBOX".to_string(), "Sent".to_string()]);
    assert!(matches!(e.next_step(), EnumerationStep::Select(ref w) if w == "INBOX"));
    e.folder_selected(true);
    assert!(matches!(e.next_step(), EnumerationStep::FetchEnvelopes));
    e.envelopes_fetched(&vec![(11, Some("<id1>".to_string()))]);
    assert!(matches!(e.next_step(), EnumerationStep::Select(ref w) if w == "Sent"));
    e.folder_selected(true);
    e.envelopes_fetched(&vec![(22, Some("<id2>".to_string()))]);
    assert!(matches!(e.next_step(), EnumerationStep::Close));
    assert_eq!(e.index.len(), 2);
    let l1 = e.index.get("<id1>").unwrap();
    let l2 = e.index.get("<id2>").unwrap();
    assert_eq!((l1.folder.as_str(), l1.uid), ("INBOX", 11));
    assert_eq!((l2.folder.as_str(), l2.uid), ("Sent", 22));
}

#[test]
fn enumeration_passes_over_unselectable_folder() {
    let mut e = Enumeration::new(vec!["[Gmail]".to_string(), "Корзина".to_string()]);
    e.folder_selected(false);
    assert!(matches!(e.next_step(), EnumerationStep::Select(ref w) if w == "&BBoEPgRABDcEOAQ9BDA-"));
    e.folder_selected(true);
    e.envelopes_fetched(&vec![(5, None), (6, Some("<m>".to_string()))]);
    assert!(matches!(e.next_step(), EnumerationStep::Close));
    assert_eq!(e.index.len(), 1);
    assert_eq!(e.index.get("<m>").unwrap().folder, "Корзина");
}

#[test]
fn most_recent_order() {
    let order = recent_uids(&vec![3, 1, 5, 2], RECENT_LIMIT);
    assert_eq!(order, vec![5, 3, 2, 1]);
    let fetched = vec![
        (1, "one".to_string()),
        (2, "two".to_string()),
        (3, "=?utf-8?q?three_=C3=A9?=".to_string()),
        (5, "five".to_string()),
    ];
    assert_eq!(
        subjects_by_uid(&order, &fetched),
        vec!["five".to_string(), "three é".to_string(), "two".to_string(), "one".to_string()]
    );
}

#[test]
fn most_recent_capped() {
    let uids: Vec<u32> = (1..=150).collect();
    let r = recent_uids(&uids, RECENT_LIMIT);
    assert_eq!(r.len(), 100);
    assert_eq!(r[0], 150);
    assert_eq!(r[99], 51);
    assert!(recent_uids(&Vec::new(), RECENT_LIMIT).is_empty());
}

#[test]
fn subjects_skip_unfetched() {
    let r = subjects_by_uid(&vec![9, 4], &vec![(4, "four".to_string())]);
    assert_eq!(r, vec!["four".to_string()]);
}

#[test]
fn subject_search_exact_match() {
    let mut index = MessageIndex::new();
    index.insert("<near>".to_string(), Location::new("INBOX", 1));
    index.insert("<exact>".to_string(), Location::new("INBOX", 2));
    let mut search = SubjectSearch::new("X".to_string());
    assert!(matches!(search.next_step(&index), SearchStep::Select(ref w) if w == "INBOX"));
    search.folder_selected(&index, true);
    assert!(matches!(search.next_step(&index), SearchStep::Fetch(1)));
    assert!(search.message_fetched(&index, &simple("X ")).is_none());
    assert!(matches!(search.next_step(&index), SearchStep::Fetch(2)));
    let (loc, rec) = search.message_fetched(&index, &simple("X")).unwrap();
    assert_eq!((loc.folder.as_str(), loc.uid), ("INBOX", 2));
    assert_eq!(rec.subject, "X");
}

#[test]
fn subject_search_not_found() {
    let mut index = MessageIndex::new();
    index.insert("<a>".to_string(), Location::new("Sent", 3));
    let mut search = SubjectSearch::new("X".to_string());
    search.folder_selected(&index, true);
    assert!(search.message_fetched(&index, &simple("x")).is_none());
    assert!(matches!(search.next_step(&index), SearchStep::NotFound));
}

#[test]
fn question_marks_without_word_pass_through() {
    for s in ["a?utf-8?q?hi", "Why? Because?q?yes", "=?utf-8?q?unterminated", "=??q?x?="] {
        assert_eq!(decode_words(s), s);
    }
}

#[test]
fn encoded_words_amid_literal_text() {
    assert_eq!(decode_words("Re: =?UTF-8?Q?caf=C3=A9?="), "Re: café");
    assert_eq!(decode_words("[=?utf-8?b?Y2Fmw6k=?=] and =?utf-8?q?th=C3=A9?= end"), "[café] and thé end");
}

#[test]
fn refused_word_stays_as_written() {
    assert_eq!(decode_words("x =?utf-8?z?abc?= y"), "x =?utf-8?z?abc?= y");
}

#[test]
fn folder_name_with_byte_order_mark_still_decodes() {
    let wire = encode_folder_name("\u{FEFF}");
    assert!(decode_folder_name(&wire).is_some());
}

#[test]
fn addresses_trim_unicode_white_space() {
    assert_eq!(
        split_addresses("\u{a0}a@x.com\t,\u{3000}b@y.com\r\n"),
        vec!["a@x.com".to_string(), "b@y.com".to_string()]
    );
}
