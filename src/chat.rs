use vstd::prelude::*;
use crate::model::{GameChatConversation, GameChatConversationMessage};

verus! {

/// The conversation type of a champion select lobby.
pub open spec fn champ_select_type() -> Seq<char> {
    "championSelect"@
}

/// The id of the first conversation that is a champion select lobby.
pub fn find_champ_select_id(conversations: &Vec<GameChatConversation>) -> (r: Option<String>)
    ensures
        r is None <==> forall|i: int|
            0 <= i < conversations@.len()
                ==> #[trigger] conversations@[i].conversation_type@ != champ_select_type(),
        r is Some ==> exists|i: int|
            0 <= i < conversations@.len()
                && #[trigger] conversations@[i].conversation_type@ == champ_select_type()
                && (forall|j: int|
                    0 <= j < i ==> conversations@[j].conversation_type@ != champ_select_type())
                && r->0@ == conversations@[i].id@,
{
    proof {
        reveal_strlit("championSelect");
    }
    let target = "championSelect".to_owned();
    let mut i: usize = 0;
    while i < conversations.len()
        invariant
            i <= conversations@.len(),
            target@ == champ_select_type(),
            forall|j: int|
                0 <= j < i ==> conversations@[j].conversation_type@ != champ_select_type(),
        decreases conversations@.len() - i,
    {
        if conversations[i].conversation_type == target {
            assert(conversations@[i as int].conversation_type@ == champ_select_type());
            return Some(conversations[i].id.clone());
        }
        i = i + 1;
    }
    None
}

/// One of the first `n` messages was sent by `id`.
pub open spec fn sent_among(messages: Seq<GameChatConversationMessage>, n: int, id: Seq<char>) -> bool {
    exists|k: int| 0 <= k < n && (#[trigger] messages[k]).from_id@ == id
}

/// `id` is one of `ids`.
pub open spec fn listed(ids: Seq<String>, id: Seq<char>) -> bool {
    exists|a: int| 0 <= a < ids.len() && (#[trigger] ids[a])@ == id
}

/// The distinct sender ids of the messages, each once, in the order in which
/// they first appear.
pub fn distinct_sender_ids(messages: &Vec<GameChatConversationMessage>) -> (r: Vec<String>)
    ensures
        forall|a: int, b: int| 0 <= a < b < r@.len() ==> #[trigger] r@[a]@ != #[trigger] r@[b]@,
        forall|a: int|
            0 <= a < r@.len() ==> sent_among(messages@, messages@.len() as int, #[trigger] r@[a]@),
        forall|k: int| 0 <= k < messages@.len() ==> listed(r@, #[trigger] messages@[k].from_id@),
{
    let mut ids: Vec<String> = Vec::new();
    let mut k: usize = 0;
    while k < messages.len()
        invariant
            k <= messages@.len(),
            forall|a: int, b: int|
                0 <= a < b < ids@.len() ==> #[trigger] ids@[a]@ != #[trigger] ids@[b]@,
            forall|a: int| 0 <= a < ids@.len() ==> sent_among(messages@, k as int, #[trigger] ids@[a]@),
            forall|j: int| 0 <= j < k ==> listed(ids@, #[trigger] messages@[j].from_id@),
        decreases messages@.len() - k,
    {
        let id = &messages[k].from_id;
        let mut seen = false;
        let mut a: usize = 0;
        while a < ids.len()
            invariant
                a <= ids@.len(),
                seen ==> listed(ids@, id@),
                !seen ==> forall|b: int| 0 <= b < a ==> ids@[b]@ != id@,
            decreases ids@.len() - a,
        {
            if ids[a] == *id {
                seen = true;
            }
            a = a + 1;
        }
        let ghost old_ids = ids@;
        if !seen {
            ids.push(id.clone());
        }
        proof {
            if !seen {
                assert(ids@[old_ids.len() as int]@ == id@);
            }
            assert(listed(ids@, id@));
            assert forall|a: int| 0 <= a < ids@.len() implies sent_among(
                messages@,
                k + 1,
                #[trigger] ids@[a]@,
            ) by {
                if a < old_ids.len() {
                    assert(ids@[a] == old_ids[a]);
                    assert(sent_among(messages@, k as int, old_ids[a]@));
                    let j = choose|j: int| 0 <= j < k && (#[trigger] messages@[j]).from_id@ == old_ids[a]@;
                    assert(messages@[j].from_id@ == ids@[a]@);
                } else {
                    assert(messages@[k as int].from_id@ == ids@[a]@);
                }
            }
            assert forall|j: int| 0 <= j < k + 1 implies listed(ids@, #[trigger] messages@[j].from_id@) by {
                if j < k {
                    assert(listed(old_ids, messages@[j].from_id@));
                    let a = choose|a: int| 0 <= a < old_ids.len() && (#[trigger] old_ids[a])@ == messages@[j].from_id@;
                    assert(ids@[a] == old_ids[a]);
                }
            }
        }
        k = k + 1;
    }
    ids
}

} // verus!
