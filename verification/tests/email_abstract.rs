use email_abstract_rs::email::EmailTable;
use email_abstract_rs::email_abstract;

#[test]
fn test_format_emails() {
    let emails = vec![
        EmailTable {
            sender: "sender1@example.com".to_string(),
            subject: "Subject 1".to_string(),
            body: "Body 1".to_string(),
        },
        EmailTable {
            sender: "sender2@example.com".to_string(),
            subject: "Subject \"2\"".to_string(),
            body: "Body\n2".to_string(),
        },
    ];

    let formatted = email_abstract::format_emails(&emails);
    assert!(formatted.starts_with("mails = {"));
    assert!(formatted.contains("sender: \"sender1@example.com\""));
    assert!(formatted.contains("subject: \"Subject 1\""));
    assert!(formatted.contains("body: \"Body 1\""));
    assert!(formatted.ends_with("}"));

    assert!(formatted.starts_with("mails = {"));
    assert!(formatted.contains("sender: \"sender2@example.com\""));
    assert!(formatted.contains("subject: \"Subject '2'\""));
    assert!(formatted.contains("body: \"Body 2\""));
    assert!(formatted.ends_with("}"));
}

#[test]
fn test_generate_summary_prompt() {
    let emails = vec![EmailTable {
        sender: "sender1@example.com".to_string(),
        subject: "Subject 1".to_string(),
        body: "Body 1".to_string(),
    }];
    let template = format!("input = {}{}", "{emails_input}", email_abstract::PROMPT_TAIL);
    let prompt = email_abstract::generate_summary_prompt(&emails);
    let result =
        "mails = {{sender: \"sender1@example.com\", subject: \"Subject 1\", body: \"Body 1\"}}";
    assert_eq!(prompt, template.replace("{emails_input}", result));
}

#[test]
fn format_emails_of_no_mail_is_the_empty_list() {
    assert_eq!(email_abstract::format_emails(&Vec::new()), "mails = {}");
}

#[test]
fn format_emails_gives_the_exact_text() {
    let emails = vec![
        EmailTable {
            sender: "a@mails.tsinghua.edu.cn".to_string(),
            subject: "He said \"hi\"".to_string(),
            body: "line 1\r\nline 2".to_string(),
        },
        EmailTable {
            sender: "b@mail.tsinghua.edu.cn".to_string(),
            subject: "讲座".to_string(),
            body: "".to_string(),
        },
    ];
    assert_eq!(
        email_abstract::format_emails(&emails),
        "mails = {{sender: \"a@mails.tsinghua.edu.cn\", subject: \"He said 'hi'\", body: \"line 1  line 2\"}, {sender: \"b@mail.tsinghua.edu.cn\", subject: \"讲座\", body: \"\"}}"
    );
}

#[test]
fn clean_string_replaces_quotes_and_line_ends() {
    assert_eq!(email_abstract::clean_string("a\"b\nc\rd'e"), "a'b c d'e");
    assert_eq!(email_abstract::clean_string(""), "");
    assert_eq!(email_abstract::clean_string("中文\"引\""), "中文'引'");
}

#[test]
fn summary_prompt_has_the_exact_wording() {
    let prompt = email_abstract::generate_summary_prompt(&Vec::new());
    let expected = "input = mails = {} \n 是一系列邮件的组合，这些邮件是一系列会议邀请的邮件，现在，请你结合这一系列邮件的内容，按照如下格式进行总结: 输出一个JSON表格，这个表格包含内容: {sender(发件人), event(事件标题) , time_begin(活动开始时间 格式为 xxxx年xx月xx日 xx时xx分), time_end(活动结束时间 格式为 xxxx年xx月xx日 xx时xx分), position(活动发生的地点), abstract(简要概括,包含活动内容，主要参与人(注意概括头衔)，学科内容。如果是学术报告，还需要概括学术报告内的科研结果简介)}, 这样的内容请为每一个邮件组织一个，最终以一系列JSON表格的形式输出，并注意使用中文输出。注意，你仅被允许输出纯JSON格式的内容，包括markdown的代码块也不被允许输出。不允许输出任何额外的内容。请注意所总结时间的正确性！尤其是年份，要注意是不是2025，请仔细检查。如果邮件input为空，则输出空表";
    assert_eq!(prompt, expected);
}
