//! The record of a run as text: one line per snapshot.

use crate::machine::texts_of;
use vstd::prelude::*;
use vstd::string::StringExecFns;

verus! {

/// One snapshot as a line: the tapes' texts with a space between them.
pub open spec fn line_of(snapshot: Seq<Seq<char>>) -> Seq<char>
    decreases snapshot.len(),
{
    if snapshot.len() == 0 {
        Seq::empty()
    } else if snapshot.len() == 1 {
        snapshot[0]
    } else {
        line_of(snapshot.drop_last()) + seq![' '] + snapshot.last()
    }
}

/// A run as text: the line of each snapshot, each ended by a line feed.
pub open spec fn text_of(snapshots: Seq<Seq<Seq<char>>>) -> Seq<char>
    decreases snapshots.len(),
{
    if snapshots.len() == 0 {
        Seq::empty()
    } else {
        text_of(snapshots.drop_last()) + line_of(snapshots.last()) + seq!['\n']
    }
}

/// The texts of a recorded run.
pub open spec fn snapshots_of(protocol: Seq<Vec<String>>) -> Seq<Seq<Seq<char>>> {
    Seq::new(protocol.len(), |i: int| texts_of(protocol[i]@))
}

/// Appends one snapshot's line to `text`.
fn push_line(text: &mut String, snapshot: &Vec<String>)
    ensures
        final(text)@ == old(text)@ + line_of(texts_of(snapshot@)),
{
    let ghost start = text@;
    let ghost all = texts_of(snapshot@);
    let mut i: usize = 0;
    while i < snapshot.len()
        invariant
            i <= snapshot@.len(),
            all == texts_of(snapshot@),
            text@ == start + line_of(all.take(i as int)),
        decreases snapshot@.len() - i,
    {
        let ghost done = all.take(i as int);
        let ghost next = all.take(i + 1);
        assert(next.drop_last() =~= done);
        assert(next.last() == snapshot@[i as int]@);
        if i > 0 {
            text.push(' ');
        }
        text.append(snapshot[i].as_str());
        proof {
            if i == 0 {
                assert(line_of(done) =~= Seq::<char>::empty());
                assert(text@ =~= start + line_of(next));
            } else {
                assert(text@ =~= start + (line_of(done) + seq![' '] + next.last()));
            }
        }
        i += 1;
    }
    assert(all.take(snapshot@.len() as int) =~= all);
}

/// The recorded run as text, one line per snapshot, or `None` for a run of
/// which nothing was recorded.
pub fn protocol_text(protocol: &Vec<Vec<String>>) -> (text: Option<String>)
    ensures
        text.is_some() == (protocol@.len() > 0),
        text.is_some() ==> text.unwrap()@ == text_of(snapshots_of(protocol@)),
{
    if protocol.len() == 0 {
        return None;
    }
    let ghost all = snapshots_of(protocol@);
    let mut text = String::new();
    let mut i: usize = 0;
    while i < protocol.len()
        invariant
            i <= protocol@.len(),
            all == snapshots_of(protocol@),
            text@ == text_of(all.take(i as int)),
        decreases protocol@.len() - i,
    {
        let ghost done = all.take(i as int);
        let ghost next = all.take(i + 1);
        assert(next.drop_last() =~= done);
        assert(next.last() == texts_of(protocol@[i as int]@));
        push_line(&mut text, &protocol[i]);
        text.push('\n');
        assert(text@ =~= text_of(done) + line_of(next.last()) + seq!['\n']);
        i += 1;
    }
    assert(all.take(protocol@.len() as int) =~= all);
    Some(text)
}

} // verus!
