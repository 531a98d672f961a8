use vstd::prelude::*;

use crate::channel_id::ChannelId;
use crate::text::{chars_of, decimal_int, i64_to_decimal, push_char};
use crate::uni_message::{UniMessage, UniMessageView};

verus! {

/// How Telegram is to read the text of an outgoing message.
#[derive(Debug, Clone, Copy, PartialEq, Eq, Structural)]
pub enum ParseMode {
    MarkdownV2,
}

/// Why a message cannot be delivered to Telegram.
#[derive(Debug, Clone, Copy, PartialEq, Eq, Structural)]
pub enum TelegramSendError {
    /// The message names no destination.
    TargetNotSpecified,
    /// The destination is not a Telegram chat (it is a Discord channel id).
    NotATelegramChat,
}

/// The characters that MarkdownV2 reserves, and that a plain text must escape.
pub open spec fn is_markdown_v2_special(c: char) -> bool {
    ||| c == '_'
    ||| c == '['
    ||| c == ']'
    ||| c == '('
    ||| c == ')'
    ||| c == '~'
    ||| c == '`'
    ||| c == '>'
    ||| c == '#'
    ||| c == '+'
    ||| c == '-'
    ||| c == '='
    ||| c == '|'
    ||| c == '{'
    ||| c == '}'
    ||| c == '.'
    ||| c == '!'
    ||| c == '\\'
}

/// One character as it stands in escaped text: behind a backslash when it is
/// reserved.
pub open spec fn escaped_char(c: char) -> Seq<char> {
    if is_markdown_v2_special(c) {
        seq!['\\', c]
    } else {
        seq![c]
    }
}

/// A text with each reserved character put behind a backslash.
pub open spec fn escape_markdown_v2_text(s: Seq<char>) -> Seq<char>
    decreases s.len(),
{
    if s.len() == 0 {
        seq![]
    } else {
        escape_markdown_v2_text(s.drop_last()) + escaped_char(s.last())
    }
}

/// The text that introduces a message by its author: the author in asterisks,
/// a colon, a line break, then the message.
pub open spec fn formatted_text(message: Seq<char>, author: Seq<char>) -> Seq<char> {
    seq!['*'] + author + seq!['*', ':', '\n'] + message
}

/// Whether `c` is reserved in MarkdownV2.
pub fn is_special_char(c: char) -> (r: bool)
    ensures
        r == is_markdown_v2_special(c),
{
    match c {
        '_' | '[' | ']' | '(' | ')' | '~' | '`' | '>' | '#' | '+' | '-' | '=' | '|' | '{' | '}'
        | '.' | '!' | '\\' => true,
        _ => false,
    }
}

/// Escapes a text for Telegram's MarkdownV2: each reserved character gets a
/// backslash before it, the others stay as they are.
pub fn escape_markdown_v2(text: &str) -> (escaped: String)
    ensures
        escaped@ == escape_markdown_v2_text(text@),
{
    let chars = chars_of(text);
    let mut escaped = String::new();
    let mut i: usize = 0;
    while i < chars.len()
        invariant
            i <= chars.len(),
            chars@ == text@,
            escaped@ == escape_markdown_v2_text(chars@.take(i as int)),
        decreases chars.len() - i,
    {
        let character = chars[i];
        if is_special_char(character) {
            push_char(&mut escaped, '\\');
        }
        push_char(&mut escaped, character);
        assert(chars@.take(i + 1).drop_last() =~= chars@.take(i as int));
        i = i + 1;
        assert(escaped@ =~= escape_markdown_v2_text(chars@.take(i as int)));
    }
    assert(chars@.take(i as int) =~= chars@);
    escaped
}

/// Introduces a message by its author, in bold: `*author*:` and the message on
/// the next line.
pub fn format_message(message: &str, author: &str) -> (s: String)
    ensures
        s@ == formatted_text(message@, author@),
        s@.len() == author@.len() + 4 + message@.len(),
        s@[0] == '*',
        s@.subrange(1, author@.len() as int + 1) == author@,
        s@[author@.len() as int + 1] == '*',
        s@[author@.len() as int + 2] == ':',
        s@[author@.len() as int + 3] == '\n',
        s@.skip(author@.len() as int + 4) == message@,
{
    proof {
        lemma_formatted_text_parts(message@, author@);
    }
    let mut s = String::new();
    push_char(&mut s, '*');
    s.append(author);
    push_char(&mut s, '*');
    push_char(&mut s, ':');
    push_char(&mut s, '\n');
    s.append(message);
    assert(s@ =~= formatted_text(message@, author@));
    s
}

/// The MarkdownV2 text that stands for one part of a message by `author`.
pub open spec fn telegram_part(part: Seq<char>, author: Seq<char>) -> Seq<char> {
    escape_markdown_v2_text(formatted_text(part, author))
}

/// The texts that a message becomes on Telegram, each to be read as MarkdownV2:
/// first the message text, then each attachment's URL, each introduced by the
/// author and escaped.
pub fn get_messages(message: &UniMessage) -> (out: Vec<(String, ParseMode)>)
    ensures
        out.len() == message.attachment_urls.len() + 1,
        out@[0].0@ == telegram_part(message.message@, message.author@),
        forall|i: int|
            0 <= i < message.attachment_urls.len() ==> (#[trigger] out@[i + 1]).0@ == telegram_part(
                message.attachment_urls@[i]@,
                message.author@,
            ),
        forall|i: int| 0 <= i < out.len() ==> (#[trigger] out@[i]).1 == ParseMode::MarkdownV2,
        out@[0].0@ == escape_markdown_v2_text(formatted_text(message.message@, message.author@)),
        forall|i: int|
            0 <= i < message.attachment_urls.len() ==> (#[trigger] out@[i + 1]).0@
                == escape_markdown_v2_text(
                formatted_text(message.attachment_urls@[i]@, message.author@),
            ),
{
    let mut formatted_message: Vec<(String, ParseMode)> = Vec::new();
    formatted_message.push(
        (
            escape_markdown_v2(&format_message(message.message.as_str(), message.author.as_str())),
            ParseMode::MarkdownV2,
        ),
    );
    let urls = &message.attachment_urls;
    let mut i: usize = 0;
    while i < urls.len()
        invariant
            i <= urls.len(),
            urls == message.attachment_urls,
            formatted_message.len() == i + 1,
            formatted_message@[0].0@ == telegram_part(message.message@, message.author@),
            forall|j: int|
                0 <= j < i ==> (#[trigger] formatted_message@[j + 1]).0@ == telegram_part(
                    urls@[j]@,
                    message.author@,
                ),
            forall|j: int|
                0 <= j < formatted_message.len() ==> (#[trigger] formatted_message@[j]).1
                    == ParseMode::MarkdownV2,
        decreases urls.len() - i,
    {
        formatted_message.push(
            (
                escape_markdown_v2(&format_message(urls[i].as_str(), message.author.as_str())),
                ParseMode::MarkdownV2,
            ),
        );
        i = i + 1;
    }
    formatted_message
}

/// The chat and the texts with which a message is delivered to Telegram; an error
/// when the message has no destination, or its destination is not a Telegram
/// chat.
pub fn telegram_outgoing(message: &UniMessage) -> (r: Result<(i64, Vec<(String, ParseMode)>), TelegramSendError>)
    ensures
        message.to_channel_id is None ==> r == Err::<(i64, Vec<(String, ParseMode)>), _>(
            TelegramSendError::TargetNotSpecified,
        ),
        message.to_channel_id matches Some(ChannelId::U64(_)) ==> r == Err::<
            (i64, Vec<(String, ParseMode)>),
            _,
        >(TelegramSendError::NotATelegramChat),
        message.to_channel_id matches Some(ChannelId::I64(chat)) ==> (r matches Ok((c, parts))
            && c == chat && parts.len() == message.attachment_urls.len() + 1
            && parts@[0].0@ == telegram_part(message.message@, message.author@)
            && (forall|i: int|
            0 <= i < message.attachment_urls.len() ==> (#[trigger] parts@[i + 1]).0@
                == telegram_part(message.attachment_urls@[i]@, message.author@)) && (forall|i: int|
            0 <= i < parts.len() ==> (#[trigger] parts@[i]).1 == ParseMode::MarkdownV2)),
{
    match message.to_channel_id {
        None => Err(TelegramSendError::TargetNotSpecified),
        Some(ChannelId::U64(_)) => Err(TelegramSendError::NotATelegramChat),
        Some(ChannelId::I64(chat)) => Ok((chat, get_messages(message))),
    }
}

/// The shared form of a message received in a Telegram chat: its id written in
/// decimal, its text and author, coming from the chat, addressed nowhere yet and
/// with no attachments.
pub fn create_uni_message(message_id: i32, chat_id: i64, text: &str, author: &str) -> (m: UniMessage)
    ensures
        m@ == (UniMessageView {
            id: decimal_int(message_id as int),
            message: text@,
            author: author@,
            from_channel_id: ChannelId::I64(chat_id),
            to_channel_id: None,
            attachment_urls: Seq::empty(),
        }),
{
    let attachment_urls: Vec<String> = Vec::new();
    let m = UniMessage {
        message: String::from_str(text),
        to_channel_id: None,
        attachment_urls,
        from_channel_id: ChannelId::I64(chat_id),
        id: i64_to_decimal(message_id as i64),
        author: String::from_str(author),
    };
    assert(m@.attachment_urls =~= Seq::<Seq<char>>::empty());
    m
}

/// Escaping distributes over concatenation: the escaped form of two texts put
/// together is their escaped forms put together.
pub proof fn lemma_escape_concat(a: Seq<char>, b: Seq<char>)
    ensures
        escape_markdown_v2_text(a + b) == escape_markdown_v2_text(a) + escape_markdown_v2_text(b),
    decreases b.len(),
{
    if b.len() == 0 {
        assert(a + b =~= a);
        assert(escape_markdown_v2_text(a) + escape_markdown_v2_text(b) =~= escape_markdown_v2_text(a));
    } else {
        lemma_escape_concat(a, b.drop_last());
        assert((a + b).drop_last() =~= a + b.drop_last());
        assert((a + b).last() == b.last());
        assert(escape_markdown_v2_text(a + b) =~= escape_markdown_v2_text(a)
            + escape_markdown_v2_text(b));
    }
}

/// Escaping loses nothing: two texts with the same escaped form are the same text.
pub proof fn lemma_escape_injective(a: Seq<char>, b: Seq<char>)
    requires
        escape_markdown_v2_text(a) == escape_markdown_v2_text(b),
    ensures
        a == b,
    decreases a.len(),
{
    let ea = escape_markdown_v2_text(a);
    if a.len() == 0 {
        if b.len() > 0 {
            assert(escape_markdown_v2_text(b).len() > 0);
        }
        assert(a =~= b);
    } else {
        if b.len() == 0 {
            assert(ea.len() > 0);
        }
        let pa = escape_markdown_v2_text(a.drop_last());
        let pb = escape_markdown_v2_text(b.drop_last());
        let xa = escaped_char(a.last());
        let xb = escaped_char(b.last());
        assert(ea == pa + xa);
        assert(ea == pb + xb);
        assert(a.last() == ea[ea.len() - 1]);
        assert(b.last() == ea[ea.len() - 1]);
        assert(xa == xb);
        assert(pa =~= ea.subrange(0, ea.len() - xa.len()));
        assert(pb =~= ea.subrange(0, ea.len() - xb.len()));
        lemma_escape_injective(a.drop_last(), b.drop_last());
        assert(a =~= a.drop_last().push(a.last()));
        assert(b =~= b.drop_last().push(b.last()));
    }
}

/// A text without reserved characters comes out of escaping unchanged.
pub proof fn lemma_escape_plain_text_unchanged(s: Seq<char>)
    requires
        forall|i: int| 0 <= i < s.len() ==> !is_markdown_v2_special(#[trigger] s[i]),
    ensures
        escape_markdown_v2_text(s) == s,
    decreases s.len(),
{
    if s.len() > 0 {
        assert(!is_markdown_v2_special(s[s.len() - 1]));
        lemma_escape_plain_text_unchanged(s.drop_last());
        assert(s.drop_last().push(s.last()) =~= s);
        assert(escape_markdown_v2_text(s) =~= s);
    }
}

/// The formatted text is, in order: `*`, the whole author, `*`, `:`, a line
/// break, and the whole message.
pub proof fn lemma_formatted_text_parts(message: Seq<char>, author: Seq<char>)
    ensures
        ({
            let f = formatted_text(message, author);
            &&& f.len() == author.len() + 4 + message.len()
            &&& f[0] == '*'
            &&& f.subrange(1, author.len() as int + 1) == author
            &&& f[author.len() as int + 1] == '*'
            &&& f[author.len() as int + 2] == ':'
            &&& f[author.len() as int + 3] == '\n'
            &&& f.skip(author.len() as int + 4) == message
        }),
{
    let f = formatted_text(message, author);
    assert(f.subrange(1, author.len() as int + 1) =~= author);
    assert(f.skip(author.len() as int + 4) =~= message);
}

/// The characters that MarkdownV2 reserves, as a list.
pub open spec fn markdown_v2_reserved() -> Seq<char> {
    seq!['_', '[', ']', '(', ')', '~', '`', '>', '#', '+', '-', '=', '|', '{', '}', '.', '!', '\\']
}

/// Exactly the eighteen characters of the MarkdownV2 list are reserved.
pub proof fn lemma_reserved_characters(c: char)
    ensures
        is_markdown_v2_special(c) <==> markdown_v2_reserved().contains(c),
        markdown_v2_reserved().len() == 18,
{
    let r = markdown_v2_reserved();
    if is_markdown_v2_special(c) {
        if c == '_' { assert(r[0] == c); }
        else if c == '[' { assert(r[1] == c); }
        else if c == ']' { assert(r[2] == c); }
        else if c == '(' { assert(r[3] == c); }
        else if c == ')' { assert(r[4] == c); }
        else if c == '~' { assert(r[5] == c); }
        else if c == '`' { assert(r[6] == c); }
        else if c == '>' { assert(r[7] == c); }
        else if c == '#' { assert(r[8] == c); }
        else if c == '+' { assert(r[9] == c); }
        else if c == '-' { assert(r[10] == c); }
        else if c == '=' { assert(r[11] == c); }
        else if c == '|' { assert(r[12] == c); }
        else if c == '{' { assert(r[13] == c); }
        else if c == '}' { assert(r[14] == c); }
        else if c == '.' { assert(r[15] == c); }
        else if c == '!' { assert(r[16] == c); }
        else { assert(r[17] == c); }
    }
}

/// One character is escaped on its own: behind a backslash when it is in the
/// MarkdownV2 list, as it is otherwise.
pub proof fn lemma_escape_single_char(c: char)
    ensures
        escape_markdown_v2_text(seq![c]) == if markdown_v2_reserved().contains(c) {
            seq!['\\', c]
        } else {
            seq![c]
        },
{
    lemma_reserved_characters(c);
    assert(seq![c].drop_last() =~= Seq::<char>::empty());
    assert(seq![c].last() == c);
    assert(escape_markdown_v2_text(Seq::<char>::empty()) == Seq::<char>::empty());
    assert(escape_markdown_v2_text(seq![c]) == escape_markdown_v2_text(Seq::<char>::empty())
        + escaped_char(c));
    assert(escape_markdown_v2_text(seq![c]) =~= escaped_char(c));
}

/// A text none of whose characters is in the MarkdownV2 list (such as `?`, `*`,
/// `"` or a letter) comes out of escaping unchanged.
pub proof fn lemma_escape_leaves_unreserved(s: Seq<char>)
    requires
        forall|i: int| 0 <= i < s.len() ==> !markdown_v2_reserved().contains(#[trigger] s[i]),
    ensures
        escape_markdown_v2_text(s) == s,
{
    assert forall|i: int| 0 <= i < s.len() implies !is_markdown_v2_special(#[trigger] s[i]) by {
        lemma_reserved_characters(s[i]);
    }
    lemma_escape_plain_text_unchanged(s);
}

} // verus!
