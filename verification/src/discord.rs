use vstd::prelude::*;

use crate::channel_id::ChannelId;
use crate::text::{
    chars_of, decimal_digits, decimal_value, is_decimal_digit, lemma_decimal_digits_value, push_char,
    u64_to_decimal,
};
use crate::uni_message::{copy_strings, texts, UniMessage, UniMessageView};

verus! {

/// A user mentioned in a Discord message: the user's id and name.
pub struct Mention {
    pub id: u64,
    pub name: String,
}

/// How Discord writes a mention of the user `id` in a message's raw text.
pub open spec fn mention_pattern(id: u64) -> Seq<char> {
    seq!['<', '@'] + decimal_digits(id as nat) + seq!['>']
}

/// How Discord writes a nickname mention of the user `id` in a message's raw text.
pub open spec fn nickname_pattern(id: u64) -> Seq<char> {
    seq!['<', '@', '!'] + decimal_digits(id as nat) + seq!['>']
}

/// `s` with every occurrence of the non-empty `pat` replaced by `rep`, the
/// occurrences taken from left to right without overlap (as `str::replace` does).
pub open spec fn replace_all(s: Seq<char>, pat: Seq<char>, rep: Seq<char>) -> Seq<char>
    decreases s.len(),
{
    if s.len() == 0 {
        s
    } else if 0 < pat.len() <= s.len() && s.take(pat.len() as int) == pat {
        rep + replace_all(s.skip(pat.len() as int), pat, rep)
    } else {
        seq![s[0]] + replace_all(s.skip(1), pat, rep)
    }
}

/// A raw message text with the mentions of each user, in order, replaced by the
/// user's name: first the plain form, then the nickname form.
pub open spec fn replace_mentions(content: Seq<char>, mentions: Seq<Mention>) -> Seq<char>
    decreases mentions.len(),
{
    if mentions.len() == 0 {
        content
    } else {
        let m = mentions.last();
        let prev = replace_mentions(content, mentions.drop_last());
        replace_all(
            replace_all(prev, mention_pattern(m.id), m.name@),
            nickname_pattern(m.id),
            m.name@,
        )
    }
}

/// Whether `pat` occurs in `s` at position `i`.
fn occurs_at(s: &Vec<char>, i: usize, pat: &Vec<char>) -> (r: bool)
    requires
        i <= s.len(),
    ensures
        r == (pat.len() <= s.len() - i && s@.subrange(i as int, i + pat.len()) == pat@),
{
    if pat.len() > s.len() - i {
        return false;
    }
    let mut k: usize = 0;
    while k < pat.len()
        invariant
            k <= pat.len(),
            pat.len() <= s.len() - i,
            forall|j: int| 0 <= j < k ==> s@[i + j] == pat@[j],
        decreases pat.len() - k,
    {
        if s[i + k] != pat[k] {
            assert(s@.subrange(i as int, i + pat.len())[k as int] != pat@[k as int]);
            return false;
        }
        k = k + 1;
    }
    assert(s@.subrange(i as int, i + pat.len()) =~= pat@);
    true
}

/// `s` with every occurrence of `pat` replaced by `rep`.
fn replace_in(s: &Vec<char>, pat: &Vec<char>, rep: &str) -> (r: String)
    requires
        pat.len() > 0,
    ensures
        r@ == replace_all(s@, pat@, rep@),
{
    let mut out = String::new();
    let mut i: usize = 0;
    assert(s@.skip(0) =~= s@);
    while i < s.len()
        invariant
            i <= s.len(),
            pat.len() > 0,
            out@ + replace_all(s@.skip(i as int), pat@, rep@) == replace_all(s@, pat@, rep@),
        decreases s.len() - i,
    {
        let ghost rest = s@.skip(i as int);
        if occurs_at(s, i, pat) {
            assert(rest.take(pat.len() as int) =~= s@.subrange(i as int, i + pat.len()));
            assert(rest.skip(pat.len() as int) =~= s@.skip(i + pat.len()));
            assert(replace_all(rest, pat@, rep@) == rep@ + replace_all(
                rest.skip(pat.len() as int),
                pat@,
                rep@,
            ));
            out.append(rep);
            i = i + pat.len();
            assert(out@ + replace_all(s@.skip(i as int), pat@, rep@) =~= replace_all(
                s@,
                pat@,
                rep@,
            ));
        } else {
            proof {
                if pat.len() <= rest.len() {
                    assert(rest.take(pat.len() as int) =~= s@.subrange(i as int, i + pat.len()));
                }
            }
            assert(rest.skip(1) =~= s@.skip(i + 1));
            assert(rest[0] == s@[i as int]);
            push_char(&mut out, s[i]);
            i = i + 1;
            assert(out@ + replace_all(s@.skip(i as int), pat@, rep@) =~= replace_all(
                s@,
                pat@,
                rep@,
            ));
        }
    }
    assert(out@ =~= out@ + replace_all(s@.skip(i as int), pat@, rep@));
    out
}

/// The characters of a mention pattern: `<@`, or `<@!` for a nickname, the user's
/// id in decimal, then `>`.
fn mention_chars(id: u64, nickname: bool) -> (v: Vec<char>)
    ensures
        v@ == if nickname {
            nickname_pattern(id)
        } else {
            mention_pattern(id)
        },
{
    let mut s = String::new();
    push_char(&mut s, '<');
    push_char(&mut s, '@');
    if nickname {
        push_char(&mut s, '!');
    }
    let digits = u64_to_decimal(id);
    s.append(digits.as_str());
    push_char(&mut s, '>');
    let v = chars_of(s.as_str());
    assert(v@ =~= if nickname {
        nickname_pattern(id)
    } else {
        mention_pattern(id)
    });
    v
}

/// Replaces the raw mentions in a Discord message text (`<@ID>` and `<@!ID>`) by
/// the names of the mentioned users.
pub fn parse_message(content: &str, mentions: &Vec<Mention>) -> (parsed: String)
    ensures
        parsed@ == replace_mentions(content@, mentions@),
{
    let mut parsed_content = String::from_str(content);
    let mut i: usize = 0;
    while i < mentions.len()
        invariant
            i <= mentions.len(),
            parsed_content@ == replace_mentions(content@, mentions@.take(i as int)),
        decreases mentions.len() - i,
    {
        let mention = &mentions[i];
        let mention_pattern = mention_chars(mention.id, false);
        let current = chars_of(parsed_content.as_str());
        parsed_content = replace_in(&current, &mention_pattern, mention.name.as_str());
        let nickname_pattern = mention_chars(mention.id, true);
        let current = chars_of(parsed_content.as_str());
        parsed_content = replace_in(&current, &nickname_pattern, mention.name.as_str());
        assert(mentions@.take(i + 1).drop_last() =~= mentions@.take(i as int));
        assert(mentions@.take(i + 1).last() == mentions@[i as int]);
        i = i + 1;
    }
    assert(mentions@.take(i as int) =~= mentions@);
    parsed_content
}

/// The shared form of a message posted in a Discord channel: its id written in
/// decimal, its text with the mentions replaced by names, its author, coming from
/// the channel, addressed nowhere yet, with the URLs of its attachments.
pub fn discord_uni_message(
    message_id: u64,
    content: &str,
    mentions: &Vec<Mention>,
    author: String,
    channel_id: u64,
    attachment_urls: Vec<String>,
) -> (m: UniMessage)
    ensures
        m@ == (UniMessageView {
            id: decimal_digits(message_id as nat),
            message: replace_mentions(content@, mentions@),
            author: author@,
            from_channel_id: ChannelId::U64(channel_id),
            to_channel_id: None,
            attachment_urls: texts(attachment_urls@),
        }),
{
    UniMessage {
        id: u64_to_decimal(message_id),
        message: parse_message(content, mentions),
        author,
        from_channel_id: ChannelId::U64(channel_id),
        to_channel_id: None,
        attachment_urls: copy_strings(&attachment_urls),
    }
}

/// The channel and the text with which a message is delivered to Discord:
/// present exactly when the message is addressed to a Discord channel; the text
/// is the message's text.
pub fn discord_outgoing(message: &UniMessage) -> (r: Option<(u64, String)>)
    ensures
        r is Some <==> message.to_channel_id matches Some(ChannelId::U64(_)),
        r matches Some((channel, text)) ==> message.to_channel_id == Some(ChannelId::U64(channel))
            && text@ == message.message@,
{
    match message.to_channel_id {
        Some(ChannelId::U64(channel_id)) => Some((channel_id, message.message.clone())),
        _ => None,
    }
}

/// Replacing a pattern whose first character does not occur in a text leaves the
/// text as it is.
pub proof fn lemma_replace_absent(s: Seq<char>, pat: Seq<char>, rep: Seq<char>)
    requires
        pat.len() > 0,
        !s.contains(pat[0]),
    ensures
        replace_all(s, pat, rep) == s,
    decreases s.len(),
{
    if s.len() > 0 {
        if pat.len() <= s.len() && s.take(pat.len() as int) == pat {
            assert(s.take(pat.len() as int)[0] == s[0]);
            assert(s.contains(s[0]));
        }
        assert forall|c: char| s.skip(1).contains(c) implies s.contains(c) by {
            let k = choose|k: int| 0 <= k < s.skip(1).len() && s.skip(1)[k] == c;
            assert(s[k + 1] == c);
        }
        lemma_replace_absent(s.skip(1), pat, rep);
        assert(seq![s[0]] + s.skip(1) =~= s);
    }
}

/// A message text without any `<` holds no raw mention, and comes out of
/// [`parse_message`] unchanged, whoever is mentioned.
pub proof fn lemma_plain_text_untouched(content: Seq<char>, mentions: Seq<Mention>)
    requires
        !content.contains('<'),
    ensures
        replace_mentions(content, mentions) == content,
    decreases mentions.len(),
{
    if mentions.len() > 0 {
        let m = mentions.last();
        lemma_plain_text_untouched(content, mentions.drop_last());
        assert(mention_pattern(m.id)[0] == '<');
        assert(nickname_pattern(m.id)[0] == '<');
        lemma_replace_absent(content, mention_pattern(m.id), m.name@);
        lemma_replace_absent(content, nickname_pattern(m.id), m.name@);
    }
}

/// A mention as Discord writes it: `<@`, the user's whole id in decimal (digits
/// only, no leading zero unless the id is zero, standing for exactly that id),
/// then `>`; a nickname mention has `<@!` in front instead.
pub proof fn lemma_mention_pattern_shape(id: u64)
    ensures
        ({
            let p = mention_pattern(id);
            &&& p.len() >= 4
            &&& p[0] == '<' && p[1] == '@' && p[p.len() - 1] == '>'
            &&& decimal_value(p.subrange(2, p.len() - 1)) == id as int
            &&& forall|i: int| 2 <= i < p.len() - 1 ==> is_decimal_digit(#[trigger] p[i])
            &&& (id > 0 ==> p[2] != '0')
        }),
        ({
            let p = nickname_pattern(id);
            &&& p.len() >= 5
            &&& p[0] == '<' && p[1] == '@' && p[2] == '!' && p[p.len() - 1] == '>'
            &&& decimal_value(p.subrange(3, p.len() - 1)) == id as int
            &&& forall|i: int| 3 <= i < p.len() - 1 ==> is_decimal_digit(#[trigger] p[i])
            &&& (id > 0 ==> p[3] != '0')
        }),
{
    let d = decimal_digits(id as nat);
    lemma_decimal_digits_value(id as nat);
    let p = mention_pattern(id);
    assert(p.subrange(2, p.len() - 1) =~= d);
    assert forall|i: int| 2 <= i < p.len() - 1 implies is_decimal_digit(#[trigger] p[i]) by {
        assert(p[i] == d[i - 2]);
    }
    let q = nickname_pattern(id);
    assert(q.subrange(3, q.len() - 1) =~= d);
    assert forall|i: int| 3 <= i < q.len() - 1 implies is_decimal_digit(#[trigger] q[i]) by {
        assert(q[i] == d[i - 3]);
    }
}

/// A text that is exactly a replacement's pattern becomes the replacement.
pub proof fn lemma_replace_whole(pat: Seq<char>, rep: Seq<char>)
    requires
        pat.len() > 0,
    ensures
        replace_all(pat, pat, rep) == rep,
{
    assert(pat.take(pat.len() as int) =~= pat);
    assert(pat.skip(pat.len() as int) =~= Seq::<char>::empty());
    assert(replace_all(Seq::<char>::empty(), pat, rep) == Seq::<char>::empty());
    assert(rep + Seq::<char>::empty() =~= rep);
}

/// A mention of a user, written with the user's whole id in decimal, becomes the
/// user's name (a name without `<`); so does a nickname mention.
pub proof fn lemma_single_mention_replaced(m: Mention)
    requires
        !m.name@.contains('<'),
    ensures
        replace_mentions(seq!['<', '@'] + decimal_digits(m.id as nat) + seq!['>'], seq![m])
            == m.name@,
        replace_mentions(seq!['<', '@', '!'] + decimal_digits(m.id as nat) + seq!['>'], seq![m])
            == m.name@,
{
    let d = decimal_digits(m.id as nat);
    let p = seq!['<', '@'] + d + seq!['>'];
    let q = seq!['<', '@', '!'] + d + seq!['>'];
    assert(p =~= mention_pattern(m.id));
    assert(q =~= nickname_pattern(m.id));
    assert(seq![m].drop_last() =~= Seq::<Mention>::empty());
    assert(seq![m].last() == m);
    assert(replace_mentions(p, Seq::<Mention>::empty()) == p);
    assert(replace_mentions(q, Seq::<Mention>::empty()) == q);
    lemma_replace_whole(p, m.name@);
    assert(q[0] == '<');
    lemma_replace_absent(m.name@, q, m.name@);
    assert(p[0] == '<');
    assert(q.take(p.len() as int) != p) by {
        assert(q.take(p.len() as int)[2] == '!');
        lemma_decimal_digits_value(m.id as nat);
        assert(p[2] == d[0]);
        assert(is_decimal_digit(d[0]));
    }
    assert forall|i: int| 1 <= i < q.len() implies q[i] != p[0] by {
        lemma_decimal_digits_value(m.id as nat);
        if 3 <= i < q.len() - 1 {
            assert(q[i] == d[i - 3]);
            assert(is_decimal_digit(d[i - 3]));
        }
    }
    lemma_replace_nickname_untouched(q, p, m.name@);
    lemma_replace_whole(q, m.name@);
}

/// Replacing the plain mention pattern does not touch a nickname mention of the
/// same user: the two differ at the third character, and the nickname pattern
/// holds `<` only at its start.
proof fn lemma_replace_nickname_untouched(q: Seq<char>, p: Seq<char>, rep: Seq<char>)
    requires
        p.len() > 0,
        p.len() < q.len(),
        q.take(p.len() as int) != p,
        forall|i: int| 1 <= i < q.len() ==> q[i] != p[0],
    ensures
        replace_all(q, p, rep) == q,
{
    let rest = q.skip(1);
    assert(!rest.contains(p[0])) by {
        assert forall|k: int| 0 <= k < rest.len() implies rest[k] != p[0] by {
            assert(rest[k] == q[k + 1]);
        }
    }
    lemma_replace_absent(rest, p, rep);
    assert(seq![q[0]] + rest =~= q);
}

/// Mentions are replaced in order: replacing a list of mentions is replacing its
/// first part, then its second part in the result.
pub proof fn lemma_replace_mentions_concat(content: Seq<char>, a: Seq<Mention>, b: Seq<Mention>)
    ensures
        replace_mentions(content, a + b) == replace_mentions(replace_mentions(content, a), b),
    decreases b.len(),
{
    if b.len() == 0 {
        assert(a + b =~= a);
    } else {
        lemma_replace_mentions_concat(content, a, b.drop_last());
        assert((a + b).drop_last() =~= a + b.drop_last());
        assert((a + b).last() == b.last());
    }
}

/// Every occurrence is replaced, not only the first: a text that starts with the
/// pattern becomes the replacement followed by the rest of the text, itself
/// with all its occurrences replaced.
pub proof fn lemma_replace_leading_occurrence(pat: Seq<char>, rest: Seq<char>, rep: Seq<char>)
    requires
        pat.len() > 0,
    ensures
        replace_all(pat + rest, pat, rep) == rep + replace_all(rest, pat, rep),
{
    let s = pat + rest;
    assert(s.take(pat.len() as int) =~= pat);
    assert(s.skip(pat.len() as int) =~= rest);
}

/// A text that does not start with the pattern keeps its first character, and the
/// rest is replaced on its own.
pub proof fn lemma_replace_other_start(c: char, rest: Seq<char>, pat: Seq<char>, rep: Seq<char>)
    requires
        !((seq![c] + rest).len() >= pat.len() > 0 && (seq![c] + rest).take(pat.len() as int)
            == pat),
    ensures
        replace_all(seq![c] + rest, pat, rep) == seq![c] + replace_all(rest, pat, rep),
{
    let s = seq![c] + rest;
    assert(s.skip(1) =~= rest);
    assert(s[0] == c);
}

} // verus!
