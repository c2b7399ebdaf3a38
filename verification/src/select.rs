//! From discovered tracks to the labels offered for selection.
//!
//! Each subtitle track is shown as one label carrying its index, the
//! display name of its language, and its title where one is tagged.

use crate::codec::encode;
use crate::codec::encoded_label;
use crate::codec::title_view;
use crate::lang::lang_code_to_name;
use crate::lang::resolved_name;
use crate::probe::StreamInfo;
use vstd::prelude::*;

verus! {

/// The label a track is offered under: its index, its language's display
/// name, and its title where one is tagged.
pub open spec fn track_label(s: StreamInfo) -> Seq<char> {
    encoded_label(s.index as nat, resolved_name(s.tags.language@), title_view(s))
}

/// Every label the library itself offers decodes back to its own track's
/// index, whatever the resolved language and the title look like.
pub proof fn lemma_offered_label_decodes(s: StreamInfo)
    requires
        s.index >= 0,
    ensures
        crate::codec::decoded_index(track_label(s)) == Some(s.index as nat),
{
    crate::codec::lemma_label_round_trip(
        s.index as nat,
        resolved_name(s.tags.language@),
        title_view(s),
    );
}

/// The selection labels of the given tracks, one per track, in order.
pub fn selection_labels(tracks: &Vec<StreamInfo>) -> (r: Vec<String>)
    requires
        forall|k: int| 0 <= k < tracks@.len() ==> (#[trigger] tracks@[k]).index >= 0,
    ensures
        r@.len() == tracks@.len(),
        forall|k: int| 0 <= k < tracks@.len() ==> (#[trigger] r@[k])@ == track_label(tracks@[k]),
{
    let mut r: Vec<String> = Vec::new();
    let mut k: usize = 0;
    let n = tracks.len();
    while k < n
        invariant
            k <= n,
            n == tracks@.len(),
            forall|m: int| 0 <= m < n ==> (#[trigger] tracks@[m]).index >= 0,
            r@.len() == k,
            forall|m: int| 0 <= m < k ==> (#[trigger] r@[m])@ == track_label(tracks@[m]),
        decreases n - k,
    {
        let track = &tracks[k];
        let language = lang_code_to_name(track.tags.language.as_str());
        let label = encode(track, language.as_str());
        r.push(label);
        k = k + 1;
    }
    r
}

} // verus!
