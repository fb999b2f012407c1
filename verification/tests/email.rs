use email_abstract_rs::email::{
    cutoff_criteria, extract_email, is_tsinghua_sender, names_match, process_email, process_messages,
    process_raw_messages, read_message, search_criteria, since_criteria, to_ascii_lower,
    EmailTable, MailHeader, MailMessage,
};
use email_abstract_rs::mime::{extract_body, MailPart, MAX_PART_DEPTH};

#[test]
fn test_extract_email() {
    assert_eq!(
        extract_email("John Doe <john@example.com>"),
        "john@example.com"
    );
    assert_eq!(
        extract_email("no-brackets@example.com"),
        "no-brackets@example.com"
    );
    assert_eq!(
        extract_email("  spaced@example.com  "),
        "spaced@example.com"
    );
}

#[test]
fn test_is_tsinghua_sender() {
    assert!(is_tsinghua_sender("someone@mail.tsinghua.edu.cn"));
    assert!(is_tsinghua_sender("someone@mails.tsinghua.edu.cn"));
    assert!(!is_tsinghua_sender("someone@example.com"));
}

#[test]
fn test_email_table_creation() {
    let email = EmailTable {
        sender: "test@example.com".to_string(),
        subject: "Test Subject".to_string(),
        body: "Test Body".to_string(),
    };

    assert_eq!(email.sender, "test@example.com");
    assert_eq!(email.subject, "Test Subject");
    assert_eq!(email.body, "Test Body");
}

fn leaf(content_type: &str, text: &str) -> MailPart {
    MailPart {
        content_type: content_type.to_string(),
        body: Some(text.to_string()),
        subparts: Vec::new(),
    }
}

fn container(content_type: &str, subparts: Vec<MailPart>) -> MailPart {
    MailPart {
        content_type: content_type.to_string(),
        body: Some(String::new()),
        subparts,
    }
}

fn message(from: &str, subject: &str, body: MailPart) -> MailMessage {
    MailMessage {
        headers: vec![
            MailHeader { name: "Received".to_string(), value: "by example".to_string() },
            MailHeader { name: "From".to_string(), value: from.to_string() },
            MailHeader { name: "Subject".to_string(), value: subject.to_string() },
        ],
        body,
    }
}

fn nested(depth: usize, innermost: MailPart) -> MailPart {
    let mut part = innermost;
    for _ in 0..depth {
        part = container("multipart/mixed", vec![part]);
    }
    part
}

const NESTED_MAIL: &str = "From: Seminar Office <Someone@Mail.Tsinghua.edu.cn>\r\nSubject: =?UTF-8?B?5a2m5pyv5oql5ZGK?=\r\nMIME-Version: 1.0\r\nContent-Type: multipart/mixed; boundary=\"outer\"\r\n\r\n--outer\r\nContent-Type: multipart/alternative; boundary=\"inner\"\r\n\r\n--inner\r\nContent-Type: text/plain; charset=utf-8\r\nContent-Transfer-Encoding: quoted-printable\r\n\r\nplain =E6=96=87=E6=9C=AC\r\n--inner\r\nContent-Type: text/html; charset=utf-8\r\n\r\n<p>html</p>\r\n--inner--\r\n--outer\r\nContent-Type: application/pdf\r\nContent-Transfer-Encoding: base64\r\n\r\nJVBERi0=\r\n--outer--\r\n";

#[test]
fn extract_email_takes_the_last_bracket_and_folds_case() {
    assert_eq!(extract_email("A <x@y> B <  Zed@Mail.Tsinghua.EDU.cn >"), "zed@mail.tsinghua.edu.cn");
    assert_eq!(extract_email("Name <UPPER@EXAMPLE.COM> trailing"), "upper@example.com");
    assert_eq!(extract_email("<open@example.com"), "open@example.com");
    assert_eq!(extract_email("close@example.com> rest"), "close@example.com");
    assert_eq!(extract_email("\t\u{3000}Tab@Example.com\u{a0}\n"), "tab@example.com");
    assert_eq!(extract_email("a <"), "");
    assert_eq!(extract_email(""), "");
    assert_eq!(extract_email(">"), "");
    assert_eq!(extract_email("ÀÉ <Ünï@Exämple.com>"), "ünï@exämple.com");
}

#[test]
fn sender_filter_looks_anywhere_in_the_address() {
    assert!(is_tsinghua_sender("mail.tsinghua"));
    assert!(is_tsinghua_sender("xmails.tsinghuax"));
    assert!(!is_tsinghua_sender("someone@tsinghua.edu.cn"));
    assert!(!is_tsinghua_sender("someone@mail.tsinghu"));
    assert!(!is_tsinghua_sender("someone@MAIL.TSINGHUA.edu.cn"));
    assert!(!is_tsinghua_sender(""));
}

#[test]
fn body_is_the_plain_text_of_a_nested_alternative() {
    let tree = container(
        "multipart/mixed",
        vec![
            container(
                "multipart/alternative",
                vec![leaf("text/plain", "plain text"), leaf("text/html", "<p>html</p>")],
            ),
            leaf("application/pdf", "%PDF"),
        ],
    );
    assert_eq!(extract_body(&tree), "plain text");
}

#[test]
fn body_follows_document_order_not_preference() {
    let html_first = container(
        "multipart/alternative",
        vec![leaf("text/html", "<p>html</p>"), leaf("text/plain", "plain text")],
    );
    assert_eq!(extract_body(&html_first), "<p>html</p>");
    let attachment_first = container(
        "multipart/mixed",
        vec![
            leaf("application/pdf", "%PDF"),
            container("multipart/related", vec![leaf("image/png", "png")]),
            container("multipart/related", vec![leaf("text/calendar", "BEGIN:VCALENDAR")]),
            leaf("text/plain", "late"),
        ],
    );
    assert_eq!(extract_body(&attachment_first), "BEGIN:VCALENDAR");
}

#[test]
fn body_is_empty_without_a_textual_part() {
    assert_eq!(extract_body(&leaf("application/pdf", "%PDF")), "");
    assert_eq!(extract_body(&container("multipart/mixed", Vec::new())), "");
    assert_eq!(
        extract_body(&container("multipart/mixed", vec![leaf("image/png", "x"), leaf("TEXT/PLAIN", "y")])),
        ""
    );
    assert_eq!(extract_body(&leaf("text", "no slash")), "");
}

#[test]
fn body_of_a_textual_root_is_its_text() {
    assert_eq!(extract_body(&leaf("text/plain", "root")), "root");
    let with_children = MailPart {
        content_type: "text/x-odd".to_string(),
        body: Some("own".to_string()),
        subparts: vec![leaf("text/plain", "child")],
    };
    assert_eq!(extract_body(&with_children), "own");
}

#[test]
fn a_textual_part_without_text_is_passed_over() {
    let undecoded = MailPart {
        content_type: "text/plain".to_string(),
        body: None,
        subparts: vec![leaf("text/plain", "hidden")],
    };
    let tree = container("multipart/mixed", vec![undecoded, leaf("text/html", "<p>next</p>")]);
    assert_eq!(extract_body(&tree), "<p>next</p>");
    let alone = MailPart { content_type: "text/plain".to_string(), body: None, subparts: Vec::new() };
    assert_eq!(extract_body(&alone), "");
}

#[test]
fn body_walk_stops_at_the_depth_limit() {
    assert_eq!(MAX_PART_DEPTH, 32);
    assert_eq!(extract_body(&nested(32, leaf("text/plain", "deep"))), "deep");
    assert_eq!(extract_body(&nested(33, leaf("text/plain", "deeper"))), "");
    let tree = container(
        "multipart/mixed",
        vec![nested(32, leaf("text/plain", "too deep")), leaf("text/plain", "shallow")],
    );
    assert_eq!(extract_body(&tree), "shallow");
}

#[test]
fn header_names_match_without_regard_to_ascii_case() {
    let chars = |text: &str| text.chars().collect::<Vec<char>>();
    assert!(names_match(&chars("Subject"), &chars("sUBJECT")));
    assert!(names_match(&chars(""), &chars("")));
    assert!(!names_match(&chars("Subject"), &chars("Subjec")));
    assert!(!names_match(&chars("From"), &chars("Frum")));
    assert!(!names_match(&chars("É"), &chars("é")));
    assert!(!names_match(&chars("@"), &chars("`")));
    assert!(!names_match(&chars("["), &chars("{")));
    assert_eq!(to_ascii_lower('A'), 'a');
    assert_eq!(to_ascii_lower('Z'), 'z');
    assert_eq!(to_ascii_lower('@'), '@');
    assert_eq!(to_ascii_lower('['), '[');
    assert_eq!(to_ascii_lower('q'), 'q');
    assert_eq!(to_ascii_lower('Ö'), 'Ö');
}

#[test]
fn first_header_value_is_that_of_the_first_match() {
    let mail = MailMessage {
        headers: vec![
            MailHeader { name: "X-From".to_string(), value: "no".to_string() },
            MailHeader { name: "FROM".to_string(), value: "first".to_string() },
            MailHeader { name: "from".to_string(), value: "second".to_string() },
        ],
        body: leaf("text/plain", ""),
    };
    assert_eq!(mail.first_header_value("From"), Some("first".to_string()));
    assert_eq!(mail.first_header_value("x-from"), Some("no".to_string()));
    assert_eq!(mail.first_header_value("Subject"), None);
}

#[test]
fn a_message_from_the_institution_is_kept() {
    let mut results = vec![EmailTable {
        sender: "kept".to_string(),
        subject: String::new(),
        body: String::new(),
    }];
    let mail = message(
        "Someone <someone@mail.tsinghua.edu.cn>",
        "Seminar",
        container("multipart/alternative", vec![leaf("text/plain", "Welcome")]),
    );
    process_email(&mail, &mut results);
    assert_eq!(results.len(), 2);
    assert_eq!(results[0].sender, "kept");
    assert_eq!(results[1].sender, "someone@mail.tsinghua.edu.cn");
    assert_eq!(results[1].subject, "Seminar");
    assert_eq!(results[1].body, "Welcome");
}

#[test]
fn a_message_from_elsewhere_is_dropped() {
    let mut results = Vec::new();
    let mail = message("Someone <someone@example.com>", "Seminar", leaf("text/plain", "Hi"));
    process_email(&mail, &mut results);
    assert!(results.is_empty());
    let display_only = message(
        "mail.tsinghua <someone@example.com>",
        "Seminar",
        leaf("text/plain", "Hi"),
    );
    process_email(&display_only, &mut results);
    assert!(results.is_empty());
}

#[test]
fn a_message_without_headers_is_dropped() {
    let mut results = Vec::new();
    let mail = MailMessage { headers: Vec::new(), body: leaf("text/plain", "Hi") };
    process_email(&mail, &mut results);
    assert!(results.is_empty());
}

#[test]
fn a_kept_message_without_subject_has_an_empty_one() {
    let mail = MailMessage {
        headers: vec![MailHeader {
            name: "from".to_string(),
            value: "A@MAILS.TSINGHUA.EDU.CN".to_string(),
        }],
        body: leaf("application/pdf", "%PDF"),
    };
    let results = process_messages(&vec![mail]);
    assert_eq!(results.len(), 1);
    assert_eq!(results[0].sender, "a@mails.tsinghua.edu.cn");
    assert_eq!(results[0].subject, "");
    assert_eq!(results[0].body, "");
}

#[test]
fn messages_are_kept_in_their_order() {
    let mails = vec![
        message("a@mail.tsinghua.edu.cn", "one", leaf("text/plain", "1")),
        message("b@example.com", "two", leaf("text/plain", "2")),
        message("c@mails.tsinghua.edu.cn", "three", leaf("text/plain", "3")),
    ];
    let results = process_messages(&mails);
    let subjects: Vec<&str> = results.iter().map(|mail| mail.subject.as_str()).collect();
    assert_eq!(subjects, vec!["one", "three"]);
    assert!(process_messages(&Vec::new()).is_empty());
}

#[test]
fn a_raw_message_is_parsed_into_headers_and_parts() {
    let mail = read_message(NESTED_MAIL.as_bytes()).unwrap();
    assert_eq!(mail.headers.len(), 4);
    assert_eq!(mail.headers[0].name, "From");
    assert_eq!(mail.headers[0].value, "Seminar Office <Someone@Mail.Tsinghua.edu.cn>");
    assert_eq!(mail.first_header_value("subject"), Some("学术报告".to_string()));
    assert_eq!(mail.body.content_type, "multipart/mixed");
    assert_eq!(mail.body.subparts.len(), 2);
    let alternative = &mail.body.subparts[0];
    assert_eq!(alternative.content_type, "multipart/alternative");
    assert_eq!(alternative.subparts.len(), 2);
    assert_eq!(alternative.subparts[0].content_type, "text/plain");
    assert_eq!(alternative.subparts[0].body, Some("plain 文本\r\n".to_string()));
    assert_eq!(alternative.subparts[1].content_type, "text/html");
    assert_eq!(mail.body.subparts[1].content_type, "application/pdf");
    assert!(mail.body.subparts[1].subparts.is_empty());
    assert_eq!(extract_body(&mail.body), "plain 文本\r\n");
}

#[test]
fn a_raw_message_from_the_institution_is_kept() {
    let results = process_raw_messages(&vec![NESTED_MAIL.as_bytes().to_vec()]);
    assert_eq!(results.len(), 1);
    assert_eq!(results[0].sender, "someone@mail.tsinghua.edu.cn");
    assert_eq!(results[0].subject, "学术报告");
    assert_eq!(results[0].body, "plain 文本\r\n");
}

#[test]
fn raw_messages_that_do_not_parse_or_pass_are_left_out() {
    let plain = b"From: a@mails.tsinghua.edu.cn\nSubject: Hello\n\nBody text".to_vec();
    let foreign = b"From: a@example.com\nSubject: Spam\n\nBody".to_vec();
    let broken = b" From: a@mails.tsinghua.edu.cn\n\nBody".to_vec();
    assert!(read_message(&broken).is_none());
    assert!(read_message(b"").is_some());
    let results = process_raw_messages(&vec![foreign, broken, plain, Vec::new()]);
    assert_eq!(results.len(), 1);
    assert_eq!(results[0].sender, "a@mails.tsinghua.edu.cn");
    assert_eq!(results[0].subject, "Hello");
    assert_eq!(results[0].body, "Body text");
}

#[test]
fn search_criteria_quotes_the_date() {
    assert_eq!(search_criteria("02-Oct-2016"), "SINCE \"02-Oct-2016\"");
    assert_eq!(search_criteria(""), "SINCE \"\"");
}

#[test]
fn since_criteria_names_a_day_of_the_calendar() {
    let criteria = since_criteria(1).unwrap();
    assert!(criteria.starts_with("SINCE \""));
    assert!(criteria.ends_with('"'));
    let date = &criteria[7..criteria.len() - 1];
    let pieces: Vec<&str> = date.split('-').collect();
    assert_eq!(pieces.len(), 3);
    assert_eq!(pieces[0].len(), 2);
    assert!(pieces[0].parse::<u32>().unwrap() >= 1 && pieces[0].parse::<u32>().unwrap() <= 31);
    let months = [
        "Jan", "Feb", "Mar", "Apr", "May", "Jun", "Jul", "Aug", "Sep", "Oct", "Nov", "Dec",
    ];
    assert!(months.contains(&pieces[1]));
    assert!(pieces[2].parse::<i32>().unwrap() >= 2024);
    assert_ne!(since_criteria(0), since_criteria(800));
}

#[test]
fn since_criteria_is_none_beyond_the_calendar() {
    assert_eq!(since_criteria(u64::MAX), None);
    assert_eq!(since_criteria(i64::MAX as u64 + 1), None);
    assert_eq!(since_criteria(i64::MAX as u64), None);
    assert_eq!(since_criteria(200_000_000), None);
}

#[test]
fn cutoff_is_today_less_the_days() {
    assert_eq!(cutoff_criteria(730_000, 0), Some("SINCE \"03-Sep-1999\"".to_string()));
    assert_eq!(cutoff_criteria(730_001, 1), Some("SINCE \"03-Sep-1999\"".to_string()));
    assert_eq!(cutoff_criteria(719_163, 0), Some("SINCE \"01-Jan-1970\"".to_string()));
    assert_eq!(cutoff_criteria(719_163, 1), Some("SINCE \"31-Dec-1969\"".to_string()));
    assert_eq!(cutoff_criteria(719_163 + 59, 1), Some("SINCE \"28-Feb-1970\"".to_string()));
    assert_eq!(cutoff_criteria(738_946, 1), Some("SINCE \"29-Feb-2024\"".to_string()));
    assert_eq!(cutoff_criteria(738_946, 366), Some("SINCE \"01-Mar-2023\"".to_string()));
    assert_eq!(cutoff_criteria(100_000_000, 99_270_000), Some("SINCE \"03-Sep-1999\"".to_string()));
}

#[test]
fn cutoff_outside_the_calendar_gives_no_criteria() {
    assert_eq!(cutoff_criteria(100_000_000, 0), None);
    assert_eq!(cutoff_criteria(-100_000_000, 0), None);
    assert_eq!(cutoff_criteria(738_946, 200_000_000), None);
    assert_eq!(cutoff_criteria(i32::MIN, 0), None);
    assert_eq!(cutoff_criteria(i32::MIN, 1), None);
    assert_eq!(cutoff_criteria(i32::MAX, u64::MAX), None);
    assert_eq!(cutoff_criteria(0, u32::MAX as u64 + 1), None);
    assert_eq!(cutoff_criteria(i32::MAX, u32::MAX as u64), None);
}

#[test]
fn since_criteria_for_no_day_is_today() {
    let today = since_criteria(0).unwrap();
    assert!(today.starts_with("SINCE \""));
    assert_eq!(today.chars().count(), 19);
    assert_ne!(since_criteria(0), since_criteria(1));
    assert!(since_criteria(366).is_some());
}
