//! The pure side of conversation storage: building fresh conversations,
//! appending user and assistant turns, renaming, the on-disk path of a
//! conversation, and the listing entry derived from one. Reading and writing
//! the files themselves is the caller's business.

use vstd::prelude::*;
use crate::models::{
    Conversation, ConversationMetadata, FileAttachment, Message, MessageMetadata, Stage1Result,
    Stage2Result, Stage3Result,
};

verus! {

/// The path of a conversation's document, relative to the working
/// directory.
pub open spec fn conversation_path_spec(id: Seq<char>) -> Seq<char> {
    "data/conversations/"@ + id + ".json"@
}

/// The file path under which conversation `conversation_id` is stored.
pub fn get_conversation_path(conversation_id: &str) -> (path: String)
    ensures
        path@ == conversation_path_spec(conversation_id@),
{
    let path = String::from_str("data/conversations/").concat(conversation_id).concat(".json");
    proof {
        assert(path@ =~= conversation_path_spec(conversation_id@));
    }
    path
}

/// A fresh conversation with no messages and the placeholder title.
pub fn new_conversation(conversation_id: &str, created_at: String) -> (c: Conversation)
    ensures
        c.id@ == conversation_id@,
        c.created_at == created_at,
        c.title@ == "New Conversation"@,
        c.messages@.len() == 0,
{
    Conversation {
        id: conversation_id.to_owned(),
        created_at,
        title: String::from_str("New Conversation"),
        messages: Vec::new(),
    }
}

/// Appends a user turn carrying `content` and the optional attachments.
pub fn add_user_message(
    conversation: &mut Conversation,
    content: String,
    files: Option<Vec<FileAttachment>>,
)
    ensures
        final(conversation).messages@ == old(conversation).messages@.push(
            Message {
                role: final(conversation).messages@.last().role,
                content: Option::Some(content),
                files,
                stage1: Option::None,
                stage2: Option::None,
                stage3: Option::None,
                metadata: Option::None,
            },
        ),
        final(conversation).messages@.last().role@ == "user"@,
        final(conversation).id == old(conversation).id,
        final(conversation).created_at == old(conversation).created_at,
        final(conversation).title == old(conversation).title,
{
    let message = Message {
        role: String::from_str("user"),
        content: Some(content),
        files,
        stage1: None,
        stage2: None,
        stage3: None,
        metadata: None,
    };
    conversation.messages.push(message);
}

/// Appends an assistant turn carrying the three stage results and the run's
/// metadata.
pub fn add_assistant_message(
    conversation: &mut Conversation,
    stage1: Vec<Stage1Result>,
    stage2: Vec<Stage2Result>,
    stage3: Stage3Result,
    metadata: Option<MessageMetadata>,
)
    ensures
        final(conversation).messages@ == old(conversation).messages@.push(
            Message {
                role: final(conversation).messages@.last().role,
                content: Option::None,
                files: Option::None,
                stage1: Option::Some(stage1),
                stage2: Option::Some(stage2),
                stage3: Option::Some(stage3),
                metadata,
            },
        ),
        final(conversation).messages@.last().role@ == "assistant"@,
        final(conversation).id == old(conversation).id,
        final(conversation).created_at == old(conversation).created_at,
        final(conversation).title == old(conversation).title,
{
    let message = Message {
        role: String::from_str("assistant"),
        content: None,
        files: None,
        stage1: Some(stage1),
        stage2: Some(stage2),
        stage3: Some(stage3),
        metadata,
    };
    conversation.messages.push(message);
}

/// Replaces the conversation's title.
pub fn update_conversation_title(conversation: &mut Conversation, title: String)
    ensures
        final(conversation).title == title,
        final(conversation).id == old(conversation).id,
        final(conversation).created_at == old(conversation).created_at,
        final(conversation).messages == old(conversation).messages,
{
    conversation.title = title;
}

/// The listing entry of one conversation.
pub fn conversation_metadata(conversation: &Conversation) -> (m: ConversationMetadata)
    ensures
        m.id == conversation.id,
        m.created_at == conversation.created_at,
        m.title == conversation.title,
        m.message_count == conversation.messages@.len(),
{
    ConversationMetadata {
        id: conversation.id.clone(),
        created_at: conversation.created_at.clone(),
        title: conversation.title.clone(),
        message_count: conversation.messages.len(),
    }
}

/// Strict lexicographic order on character sequences, by scalar value.
pub open spec fn lex_lt(a: Seq<char>, b: Seq<char>) -> bool
    decreases a.len(),
{
    if b.len() == 0 {
        false
    } else if a.len() == 0 {
        true
    } else if a[0] < b[0] {
        true
    } else if b[0] < a[0] {
        false
    } else {
        lex_lt(a.drop_first(), b.drop_first())
    }
}

/// Whether `a` sorts strictly before `b` lexicographically.
#[verifier::loop_isolation(false)]
pub fn str_lt(a: &str, b: &str) -> (r: bool)
    ensures
        r == lex_lt(a@, b@),
{
    let na = a.unicode_len();
    let nb = b.unicode_len();
    let mut i: usize = 0;
    proof {
        assert(a@.skip(0) =~= a@);
        assert(b@.skip(0) =~= b@);
    }
    while i < na && i < nb
        invariant
            i <= na,
            i <= nb,
            lex_lt(a@, b@) == lex_lt(a@.skip(i as int), b@.skip(i as int)),
        decreases na - i,
    {
        let ca = a.get_char(i);
        let cb = b.get_char(i);
        proof {
            assert(a@.skip(i as int)[0] == a@[i as int]);
            assert(b@.skip(i as int)[0] == b@[i as int]);
            assert(a@.skip(i as int).drop_first() =~= a@.skip(i as int + 1));
            assert(b@.skip(i as int).drop_first() =~= b@.skip(i as int + 1));
        }
        if ca != cb {
            return ca < cb;
        }
        i = i + 1;
    }
    proof {
        if i == na {
            assert(a@.skip(i as int).len() == 0);
        }
        if i == nb {
            assert(b@.skip(i as int).len() == 0);
        }
        if na < nb {
            assert(b@.skip(i as int).len() > 0);
        }
    }
    na < nb
}

/// Stable insertion of a listing entry into a list sorted newest first: it
/// goes before the first strictly older entry, after every newer or equally
/// new one.
pub open spec fn insert_by_created(
    e: ConversationMetadata,
    t: Seq<ConversationMetadata>,
) -> Seq<ConversationMetadata>
    decreases t.len(),
{
    if t.len() == 0 {
        seq![e]
    } else if lex_lt(t[0].created_at@, e.created_at@) {
        seq![e] + t
    } else {
        seq![t[0]] + insert_by_created(e, t.drop_first())
    }
}

/// Stable sort of listing entries, newest creation time first.
pub open spec fn sort_newest_first(t: Seq<ConversationMetadata>) -> Seq<ConversationMetadata>
    decreases t.len(),
{
    if t.len() == 0 {
        Seq::empty()
    } else {
        insert_by_created(t.last(), sort_newest_first(t.drop_last()))
    }
}

proof fn lemma_insert_by_created_at(e: ConversationMetadata, t: Seq<ConversationMetadata>, k: int)
    requires
        0 <= k <= t.len(),
        forall|j: int| 0 <= j < k ==> !lex_lt((#[trigger] t[j]).created_at@, e.created_at@),
        k < t.len() ==> lex_lt(t[k].created_at@, e.created_at@),
    ensures
        insert_by_created(e, t) == t.take(k) + seq![e] + t.skip(k),
    decreases t.len(),
{
    if t.len() == 0 {
        assert(insert_by_created(e, t) =~= t.take(k) + seq![e] + t.skip(k));
    } else if lex_lt(t[0].created_at@, e.created_at@) {
        assert(k == 0);
        assert(t.skip(0) =~= t);
        assert(insert_by_created(e, t) =~= t.take(0) + seq![e] + t.skip(0));
    } else {
        assert(k >= 1);
        let tr = t.drop_first();
        assert(forall|j: int|
            0 <= j < k - 1 ==> !lex_lt((#[trigger] tr[j]).created_at@, e.created_at@)) by {
            assert(forall|j: int| 0 <= j < tr.len() ==> (#[trigger] tr[j]) == t[j + 1]);
        }
        assert(k - 1 < tr.len() ==> lex_lt(tr[k - 1].created_at@, e.created_at@));
        lemma_insert_by_created_at(e, tr, k - 1);
        assert(seq![t[0]] + (tr.take(k - 1) + seq![e] + tr.skip(k - 1)) =~= t.take(k) + seq![e]
            + t.skip(k));
    }
}

/// Sorts listing entries newest first; entries created at the same instant
/// keep their relative order.
#[verifier::loop_isolation(false)]
pub fn sort_conversations_newest_first(list: Vec<ConversationMetadata>) -> (sorted: Vec<
    ConversationMetadata,
>)
    ensures
        sorted@ == sort_newest_first(list@),
{
    let mut out: Vec<ConversationMetadata> = Vec::new();
    proof {
        assert(list@.take(0) =~= Seq::<ConversationMetadata>::empty());
        assert(out@ =~= sort_newest_first(list@.take(0)));
    }
    let n = list.len();
    let mut i: usize = 0;
    while i < n
        invariant
            i <= n,
            n == list@.len(),
            out@ == sort_newest_first(list@.take(i as int)),
        decreases n - i,
    {
        let ghost sorted_pre = out@;
        let item = ConversationMetadata {
            id: list[i].id.clone(),
            created_at: list[i].created_at.clone(),
            title: list[i].title.clone(),
            message_count: list[i].message_count,
        };
        proof {
            assert(item == list@[i as int]);
        }
        let mut idx: usize = 0;
        while idx < out.len() && !str_lt(out[idx].created_at.as_str(), item.created_at.as_str())
            invariant
                idx <= out@.len(),
                out@ == sorted_pre,
                forall|j: int|
                    0 <= j < idx ==> !lex_lt((#[trigger] sorted_pre[j]).created_at@, item.created_at@),
            decreases out@.len() - idx,
        {
            idx = idx + 1;
        }
        proof {
            lemma_insert_by_created_at(item, sorted_pre, idx as int);
        }
        out.insert(idx, item);
        proof {
            assert(out@ =~= sorted_pre.take(idx as int) + seq![list@[i as int]] + sorted_pre.skip(
                idx as int,
            ));
            assert(list@.take(i as int + 1).drop_last() =~= list@.take(i as int));
            assert(list@.take(i as int + 1).last() == list@[i as int]);
        }
        i = i + 1;
    }
    proof {
        assert(list@.take(n as int) =~= list@);
    }
    out
}

} // verus!
