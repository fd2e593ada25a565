use vstd::prelude::*;
use crate::snippet::AnswerResponse;
use crate::snippet::DecodedResponse;
use crate::snippet::Response;
use crate::snippet::Snippet;

verus! {

/// Builds the final payload.  The shortlist element at the selected index
/// is swapped with the element at position 0 — a single swap, not a
/// stable move, so whatever stood at position 0 lands at the selected
/// index's former position — and `selection.index` is fixed at 0: the
/// reorder, not the raw model index, encodes the choice.
pub fn assemble_response(
    snippets: Vec<Snippet>,
    index: usize,
    answer: String,
    user_id: String,
) -> (r: AnswerResponse)
    requires
        index < snippets@.len(),
    ensures
        r.snippets@.len() == snippets@.len(),
        r.snippets@ =~= snippets@.update(index as int, snippets@[0]).update(
            0,
            snippets@[index as int],
        ),
        r.selection.data.index == 0u32,
        r.selection.data.answer == answer,
        r.selection.id == user_id,
{
    let ghost orig = snippets@;
    let mut s = snippets;
    if index > 0 {
        let chosen = s.remove(index);
        let first = s.remove(0);
        s.insert(0, chosen);
        s.insert(index, first);
        proof {
            let target = orig.update(index as int, orig[0]).update(0, orig[index as int]);
            assert(s@.len() == target.len());
            assert forall|t: int| 0 <= t < s@.len() implies s@[t] == target[t] by {
                if t == 0 {
                } else if t == index {
                } else if t < index {
                } else {
                }
            }
            assert(s@ =~= target);
        }
    } else {
        proof {
            assert(s@ =~= orig.update(0, orig[0]).update(0, orig[0]));
        }
    }
    AnswerResponse {
        snippets: s,
        selection: Response {
            data: DecodedResponse { index: 0u32, answer },
            id: user_id,
        },
    }
}

} // verus!
