use vstd::prelude::*;

use crate::channel_id::ChannelId;

verus! {

/// A chat message in a form shared by all bridged platforms.
#[derive(Clone)]
pub struct UniMessage {
    pub id: String,
    pub message: String,
    pub author: String,
    pub from_channel_id: ChannelId,
    pub to_channel_id: Option<ChannelId>,
    pub attachment_urls: Vec<String>,
}

/// The mathematical content of a [`UniMessage`].
pub struct UniMessageView {
    pub id: Seq<char>,
    pub message: Seq<char>,
    pub author: Seq<char>,
    pub from_channel_id: ChannelId,
    pub to_channel_id: Option<ChannelId>,
    pub attachment_urls: Seq<Seq<char>>,
}

/// The texts of a sequence of strings.
pub open spec fn texts(v: Seq<String>) -> Seq<Seq<char>> {
    v.map_values(|s: String| s@)
}

impl UniMessageView {
    /// The same message, addressed to `to`.
    pub open spec fn addressed_to(self, to: ChannelId) -> UniMessageView {
        UniMessageView { to_channel_id: Some(to), ..self }
    }
}

impl View for UniMessage {
    type V = UniMessageView;

    open spec fn view(&self) -> UniMessageView {
        UniMessageView {
            id: self.id@,
            message: self.message@,
            author: self.author@,
            from_channel_id: self.from_channel_id,
            to_channel_id: self.to_channel_id,
            attachment_urls: texts(self.attachment_urls@),
        }
    }
}

/// A copy of a list of strings.
pub fn copy_strings(v: &Vec<String>) -> (r: Vec<String>)
    ensures
        texts(r@) == texts(v@),
{
    let mut r: Vec<String> = Vec::new();
    let mut i: usize = 0;
    while i < v.len()
        invariant
            i <= v.len(),
            r.len() == i,
            forall|j: int| 0 <= j < i ==> #[trigger] r@[j]@ == v@[j]@,
        decreases v.len() - i,
    {
        r.push(v[i].clone());
        i = i + 1;
    }
    assert(texts(r@) =~= texts(v@));
    r
}

impl UniMessage {
    /// A copy of this message, addressed to `to`.
    pub fn addressed_copy(&self, to: ChannelId) -> (m: UniMessage)
        ensures
            m@ == self@.addressed_to(to),
            m.id@ == self.id@,
            m.message@ == self.message@,
            m.author@ == self.author@,
            m.from_channel_id == self.from_channel_id,
            m.to_channel_id == Some(to),
            texts(m.attachment_urls@) == texts(self.attachment_urls@),
    {
        UniMessage {
            id: self.id.clone(),
            message: self.message.clone(),
            author: self.author.clone(),
            from_channel_id: self.from_channel_id,
            to_channel_id: Some(to),
            attachment_urls: copy_strings(&self.attachment_urls),
        }
    }
}

/// Addressing a message changes its destination and nothing else: id, text,
/// author, origin and attachments stay as they are.
pub proof fn lemma_addressing_changes_only_destination(m: UniMessageView, to: ChannelId)
    ensures
        m.addressed_to(to).id == m.id,
        m.addressed_to(to).message == m.message,
        m.addressed_to(to).author == m.author,
        m.addressed_to(to).from_channel_id == m.from_channel_id,
        m.addressed_to(to).to_channel_id == Some(to),
        m.addressed_to(to).attachment_urls == m.attachment_urls,
{
}

} // verus!
