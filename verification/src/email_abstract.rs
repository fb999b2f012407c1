//! The prompt for the generation step: the retrieved mail written out as one
//! text, and the request that surrounds it.

use vstd::prelude::*;
use vstd::string::StringExecFns;
use crate::email::{EmailTable, EmailTableView};
use crate::text::to_chars;

verus! {

/// What opens the list of mails.
pub const LIST_OPEN: &'static str = "mails = {";

/// What closes the list of mails.
pub const LIST_CLOSE: &'static str = "}";

/// What stands between two mails of the list.
pub const LIST_SEPARATOR: &'static str = ", ";

/// What opens a mail, up to its sender.
pub const ENTRY_SENDER: &'static str = "{sender: \"";

/// What stands between the sender of a mail and its subject.
pub const ENTRY_SUBJECT: &'static str = "\", subject: \"";

/// What stands between the subject of a mail and its body.
pub const ENTRY_BODY: &'static str = "\", body: \"";

/// What closes a mail.
pub const ENTRY_CLOSE: &'static str = "\"}";

/// What stands in the prompt before the list of mails.
pub const PROMPT_HEAD: &'static str = "input = ";

/// What stands in the prompt after the list of mails: the request itself.
pub const PROMPT_TAIL: &'static str = " \n 是一系列邮件的组合，这些邮件是一系列会议邀请的邮件，现在，请你结合这一系列邮件的内容，按照如下格式进行总结: 输出一个JSON表格，这个表格包含内容: {sender(发件人), event(事件标题) , time_begin(活动开始时间 格式为 xxxx年xx月xx日 xx时xx分), time_end(活动结束时间 格式为 xxxx年xx月xx日 xx时xx分), position(活动发生的地点), abstract(简要概括,包含活动内容，主要参与人(注意概括头衔)，学科内容。如果是学术报告，还需要概括学术报告内的科研结果简介)}, 这样的内容请为每一个邮件组织一个，最终以一系列JSON表格的形式输出，并注意使用中文输出。注意，你仅被允许输出纯JSON格式的内容，包括markdown的代码块也不被允许输出。不允许输出任何额外的内容。请注意所总结时间的正确性！尤其是年份，要注意是不是2025，请仔细检查。如果邮件input为空，则输出空表";

/// A character as it is written into the prompt: a double quote becomes a
/// single one, a line feed or carriage return becomes a space.
pub open spec fn clean_char(c: char) -> char {
    if c == '"' {
        '\''
    } else if c == '\n' || c == '\r' {
        ' '
    } else {
        c
    }
}

/// A text as it is written into the prompt, character by character.
pub open spec fn cleaned(text: Seq<char>) -> Seq<char> {
    Seq::new(text.len(), |i: int| clean_char(text[i]))
}

/// One mail as it is written into the prompt.
pub open spec fn entry_text(email: EmailTableView) -> Seq<char> {
    ENTRY_SENDER@ + cleaned(email.sender) + ENTRY_SUBJECT@ + cleaned(email.subject) + ENTRY_BODY@
        + cleaned(email.body) + ENTRY_CLOSE@
}

/// The mails as they are written into the prompt, with a separator between
/// each two.
pub open spec fn entries_text(emails: Seq<EmailTableView>) -> Seq<char>
    decreases emails.len(),
{
    if emails.len() == 0 {
        Seq::empty()
    } else if emails.len() == 1 {
        entry_text(emails[0])
    } else {
        entries_text(emails.drop_last()) + LIST_SEPARATOR@ + entry_text(emails.last())
    }
}

/// The list of mails as it is written into the prompt.
pub open spec fn formatted(emails: Seq<EmailTableView>) -> Seq<char> {
    LIST_OPEN@ + entries_text(emails) + LIST_CLOSE@
}

/// The prompt for `emails`.
pub open spec fn summary_prompt(emails: Seq<EmailTableView>) -> Seq<char> {
    PROMPT_HEAD@ + formatted(emails) + PROMPT_TAIL@
}

/// A text made fit for the prompt: see [`clean_char`].
pub fn clean_string(s: &str) -> (clean: String)
    ensures
        clean@ == cleaned(s@),
{
    let chars = to_chars(s);
    let mut clean = String::new();
    let mut i: usize = 0;
    while i < chars.len()
        invariant
            chars@ == s@,
            i <= chars.len(),
            clean@ == cleaned(s@).take(i as int),
        decreases chars.len() - i,
    {
        let c = chars[i];
        let out = if c == '"' {
            '\''
        } else if c == '\n' || c == '\r' {
            ' '
        } else {
            c
        };
        clean.push(out);
        assert(cleaned(s@).take(i + 1) =~= cleaned(s@).take(i as int).push(out));
        i += 1;
    }
    assert(cleaned(s@).take(chars.len() as int) =~= cleaned(s@));
    clean
}

/// Writes one mail at the end of `out`.
fn push_entry(out: &mut String, email: &EmailTable)
    ensures
        final(out)@ == old(out)@ + entry_text(email@),
{
    let sender = clean_string(email.sender.as_str());
    let subject = clean_string(email.subject.as_str());
    let body = clean_string(email.body.as_str());
    out.append(ENTRY_SENDER);
    out.append(sender.as_str());
    out.append(ENTRY_SUBJECT);
    out.append(subject.as_str());
    out.append(ENTRY_BODY);
    out.append(body.as_str());
    out.append(ENTRY_CLOSE);
    assert(out@ =~= old(out)@ + entry_text(email@));
}

/// The mails written out as one text: `mails = {`, the mails with `, `
/// between them, and `}`.
pub fn format_emails(emails: &Vec<EmailTable>) -> (text: String)
    ensures
        text@ == formatted(emails.deep_view()),
{
    let ghost all = emails.deep_view();
    let mut text = String::new();
    text.append(LIST_OPEN);
    let mut i: usize = 0;
    proof {
        assert(all.take(0) =~= Seq::empty());
        assert(text@ =~= LIST_OPEN@ + entries_text(all.take(0)));
    }
    while i < emails.len()
        invariant
            all == emails.deep_view(),
            i <= emails.len(),
            text@ == LIST_OPEN@ + entries_text(all.take(i as int)),
        decreases emails.len() - i,
    {
        let ghost before = entries_text(all.take(i as int));
        proof {
            assert(all.take(i + 1).drop_last() =~= all.take(i as int));
            assert(all.take(i + 1).last() == emails[i as int]@);
            assert(all.take(i + 1)[0] == all[0]);
        }
        if i > 0 {
            text.append(LIST_SEPARATOR);
        }
        push_entry(&mut text, &emails[i]);
        proof {
            if i == 0 {
                assert(before =~= Seq::empty());
                assert(text@ =~= LIST_OPEN@ + entry_text(emails[i as int]@));
            } else {
                assert(text@ =~= LIST_OPEN@ + (before + LIST_SEPARATOR@ + entry_text(
                    emails[i as int]@,
                )));
            }
        }
        i += 1;
    }
    proof {
        assert(all.take(i as int) =~= all);
    }
    text.append(LIST_CLOSE);
    text
}

/// The prompt that asks for a summary of `emails`.
pub fn generate_summary_prompt(emails: &Vec<EmailTable>) -> (prompt: String)
    ensures
        prompt@ == summary_prompt(emails.deep_view()),
{
    let formatted_emails = format_emails(emails);
    let mut prompt = String::new();
    prompt.append(PROMPT_HEAD);
    prompt.append(formatted_emails.as_str());
    prompt.append(PROMPT_TAIL);
    assert(prompt@ =~= summary_prompt(emails.deep_view()));
    prompt
}

} // verus!
