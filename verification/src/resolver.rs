//! Which grave "the last thing I buried" is: the journal is read from its
//! newest record to its oldest, for one actor, and records of objects that
//! have come back already are passed over in pairs.

use crate::journal::{entries, rests_elsewhere, rests_in, Record, RecordView};
use crate::path::{path_starts_with, starts_with};
use crate::text::{contains_text, texts};
use vstd::prelude::*;

verus! {

/// What a search for the last burial found.
#[derive(Debug, PartialEq, Eq)]
pub struct Resolution {
    /// The grave to open, or `None` where there is nothing to resurrect.
    pub target: Option<String>,
    /// The graves that the search found recorded but gone, newest first:
    /// their records may be taken out of the journal.
    pub stale: Vec<String>,
}

/// A resolution as texts.
pub struct ResolutionView {
    pub target: Option<Seq<char>>,
    pub stale: Seq<Seq<char>>,
}

impl View for Resolution {
    type V = ResolutionView;

    open spec fn view(&self) -> ResolutionView {
        ResolutionView {
            target: match self.target {
                Some(t) => Some(t@),
                None => None,
            },
            stale: texts(self.stale@),
        }
    }
}

/// The search over `records`, newest first, with `pending` the graves of the
/// returns met so far whose burial is still to be passed over.
///
/// A record of another actor is passed over. A record whose original lies in
/// the graveyard tells of a return: its grave is put on `pending`. A record
/// whose grave is the last on `pending` is the burial that this return undid:
/// both are done with. Any other record is a burial that still holds: if its
/// grave is present it is the target, and if not it is stale and the search
/// goes on.
pub open spec fn resolved(
    records: Seq<RecordView>,
    pending: Seq<Seq<char>>,
    actor: Seq<char>,
    graveyard: Seq<char>,
    present: Seq<Seq<char>>,
) -> ResolutionView
    decreases records.len(),
{
    if records.len() == 0 {
        ResolutionView { target: None, stale: Seq::empty() }
    } else {
        let r = records.last();
        let older = records.drop_last();
        if r.actor != actor {
            resolved(older, pending, actor, graveyard, present)
        } else if starts_with(r.original, graveyard) {
            resolved(older, pending.push(r.grave), actor, graveyard, present)
        } else if pending.len() > 0 && pending.last() == r.grave {
            resolved(older, pending.drop_last(), actor, graveyard, present)
        } else if present.contains(r.grave) {
            ResolutionView { target: Some(r.grave), stale: Seq::empty() }
        } else {
            let rest = resolved(older, pending, actor, graveyard, present);
            ResolutionView { target: rest.target, stale: seq![r.grave] + rest.stale }
        }
    }
}

/// The last burial by `actor` that still holds, and the stale graves met on
/// the way to it.
pub open spec fn last_bury(
    records: Seq<RecordView>,
    actor: Seq<char>,
    graveyard: Seq<char>,
    present: Seq<Seq<char>>,
) -> ResolutionView {
    resolved(records, Seq::empty(), actor, graveyard, present)
}

/// Return the path in the graveyard of the last object that `actor` buried
/// and that is still there, with the graves found recorded but gone.
///
/// `records` is the journal, oldest record first; `present` lists the graves
/// that exist.
pub fn get_last_bury(
    records: &Vec<Record>,
    actor: &str,
    graveyard: &str,
    present: &Vec<String>,
) -> (found: Resolution)
    ensures
        found@ == last_bury(entries(records@), actor@, graveyard@, texts(present@)),
{
    let who = actor.to_owned();
    let mut pending: Vec<String> = Vec::new();
    let mut stale: Vec<String> = Vec::new();
    let mut i: usize = records.len();
    let ghost all = entries(records@);
    let ghost goal = last_bury(all, actor@, graveyard@, texts(present@));
    proof {
        assert(all.take(i as int) == all);
        assert(texts(pending@) == Seq::<Seq<char>>::empty());
    }
    while i > 0
        invariant
            i <= records.len(),
            who@ == actor@,
            all == entries(records@),
            goal == last_bury(all, actor@, graveyard@, texts(present@)),
            goal.target == resolved(
                all.take(i as int),
                texts(pending@),
                actor@,
                graveyard@,
                texts(present@),
            ).target,
            goal.stale == texts(stale@) + resolved(
                all.take(i as int),
                texts(pending@),
                actor@,
                graveyard@,
                texts(present@),
            ).stale,
        decreases i,
    {
        let r = &records[i - 1];
        let ghost here = all.take(i as int);
        let ghost waiting = texts(pending@);
        let ghost gone = texts(stale@);
        proof {
            assert(here.drop_last() == all.take(i - 1));
        }
        if r.actor != who {
            // The record of another actor is passed over.
        } else if path_starts_with(r.original.as_str(), graveyard) {
            let g = r.grave.clone();
            proof {
                assert(texts(pending@.push(g)) == waiting.push(g@));
            }
            pending.push(g);
        } else if pending.len() > 0 && pending[pending.len() - 1] == r.grave {
            proof {
                assert(texts(pending@.drop_last()) == waiting.drop_last());
            }
            pending.pop();
        } else if contains_text(present, &r.grave) {
            proof {
                if pending.len() > 0 {
                    assert(waiting.last() == pending@[pending.len() - 1]@);
                }
            }
            return Resolution { target: Some(r.grave.clone()), stale };
        } else {
            let g = r.grave.clone();
            proof {
                if pending.len() > 0 {
                    assert(waiting.last() == pending@[pending.len() - 1]@);
                }
                let rest = resolved(all.take(i - 1), waiting, actor@, graveyard@, texts(present@));
                assert(gone + (seq![g@] + rest.stale) == gone.push(g@) + rest.stale);
            }
            stale.push(g);
        }
        i -= 1;
    }
    proof {
        assert(all.take(0).len() == 0);
    }
    Resolution { target: None, stale }
}

/// The test "buried by `actor`".
pub open spec fn buried_by(actor: Seq<char>) -> spec_fn(RecordView) -> bool {
    |r: RecordView| r.actor == actor
}

/// Whether `records` holds a burial by `actor`, of an object from outside the
/// graveyard, that rests in `grave`.
pub open spec fn is_burial_by(
    records: Seq<RecordView>,
    actor: Seq<char>,
    graveyard: Seq<char>,
    grave: Seq<char>,
) -> bool {
    exists|i: int|
        0 <= i < records.len() && (#[trigger] records[i]).actor == actor && records[i].grave
            == grave && !starts_with(records[i].original, graveyard)
}

/// Whether `r` is a burial by `actor` that still holds: the object came from
/// outside the graveyard and its grave is present.
pub open spec fn is_standing(
    r: RecordView,
    actor: Seq<char>,
    graveyard: Seq<char>,
    present: Seq<Seq<char>>,
) -> bool {
    r.actor == actor && !starts_with(r.original, graveyard) && present.contains(r.grave)
}

/// The search finds only what the actor buried: a target is a present grave
/// of one of the actor's own burials, and a stale grave is one of them that
/// is gone.
pub proof fn lemma_resolved_sound(
    records: Seq<RecordView>,
    pending: Seq<Seq<char>>,
    actor: Seq<char>,
    graveyard: Seq<char>,
    present: Seq<Seq<char>>,
)
    ensures
        resolved(records, pending, actor, graveyard, present).target matches Some(g)
            ==> present.contains(g) && is_burial_by(records, actor, graveyard, g),
        forall|k: int|
            0 <= k < resolved(records, pending, actor, graveyard, present).stale.len()
                ==> !present.contains(
                #[trigger] resolved(records, pending, actor, graveyard, present).stale[k],
            ) && is_burial_by(
                records,
                actor,
                graveyard,
                resolved(records, pending, actor, graveyard, present).stale[k],
            ),
    decreases records.len(),
{
    if records.len() > 0 {
        let r = records.last();
        let older = records.drop_last();
        let found = resolved(records, pending, actor, graveyard, present);
        let next = if r.actor != actor {
            pending
        } else if starts_with(r.original, graveyard) {
            pending.push(r.grave)
        } else if pending.len() > 0 && pending.last() == r.grave {
            pending.drop_last()
        } else {
            pending
        };
        lemma_resolved_sound(older, next, actor, graveyard, present);
        let rest = resolved(older, next, actor, graveyard, present);
        assert forall|g: Seq<char>| is_burial_by(older, actor, graveyard, g) implies is_burial_by(
            records,
            actor,
            graveyard,
            g,
        ) by {
            let i = choose|i: int|
                0 <= i < older.len() && (#[trigger] older[i]).actor == actor && older[i].grave == g
                    && !starts_with(older[i].original, graveyard);
        }
        if r.actor == actor && !starts_with(r.original, graveyard) && !(pending.len() > 0
            && pending.last() == r.grave) {
            if !present.contains(r.grave) {
                assert forall|k: int| 0 <= k < found.stale.len() implies !present.contains(
                    #[trigger] found.stale[k],
                ) && is_burial_by(records, actor, graveyard, found.stale[k]) by {
                    if k > 0 {
                        assert(found.stale[k] == rest.stale[k - 1]);
                    }
                }
            }
        }
    }
}

/// Records of other actors change nothing: the search over a journal is the
/// search over the actor's own records in it.
pub proof fn lemma_own_records_only(
    records: Seq<RecordView>,
    pending: Seq<Seq<char>>,
    actor: Seq<char>,
    graveyard: Seq<char>,
    present: Seq<Seq<char>>,
)
    ensures
        resolved(records, pending, actor, graveyard, present) == resolved(
            records.filter(buried_by(actor)),
            pending,
            actor,
            graveyard,
            present,
        ),
    decreases records.len(),
{
    reveal(Seq::filter);
    if records.len() > 0 {
        let r = records.last();
        let older = records.drop_last();
        let own = older.filter(buried_by(actor));
        if r.actor != actor {
            lemma_own_records_only(older, pending, actor, graveyard, present);
        } else {
            let next = if starts_with(r.original, graveyard) {
                pending.push(r.grave)
            } else if pending.len() > 0 && pending.last() == r.grave {
                pending.drop_last()
            } else {
                pending
            };
            lemma_own_records_only(older, next, actor, graveyard, present);
            assert(own.push(r).drop_last() == own);
        }
    }
}

/// Where the actor has buried nothing, there is nothing to resurrect,
/// whatever others have buried.
pub proof fn lemma_nothing_of_others(
    records: Seq<RecordView>,
    actor: Seq<char>,
    graveyard: Seq<char>,
    present: Seq<Seq<char>>,
)
    requires
        forall|i: int| 0 <= i < records.len() ==> (#[trigger] records[i]).actor != actor,
    ensures
        last_bury(records, actor, graveyard, present) == (ResolutionView {
            target: None,
            stale: Seq::empty(),
        }),
{
    lemma_resolved_sound(records, Seq::empty(), actor, graveyard, present);
    let found = last_bury(records, actor, graveyard, present);
    if found.stale.len() > 0 {
        assert(is_burial_by(records, actor, graveyard, found.stale[0]));
    }
    assert(found.stale == Seq::<Seq<char>>::empty());
}

/// Burying, then resurrecting: when `r` is the newest record, is the
/// actor's and still stands, the search finds its grave and nothing stale.
/// Where no older record rests in that grave, the journal's records for it
/// are `r` alone, which names the original to go back to, and the journal
/// without them is the journal as it was before the burial.
pub proof fn lemma_bury_then_resurrect(
    journal: Seq<RecordView>,
    r: RecordView,
    actor: Seq<char>,
    graveyard: Seq<char>,
    present: Seq<Seq<char>>,
)
    requires
        is_standing(r, actor, graveyard, present),
    ensures
        last_bury(journal.push(r), actor, graveyard, present) == (ResolutionView {
            target: Some(r.grave),
            stale: Seq::empty(),
        }),
        (forall|i: int| 0 <= i < journal.len() ==> (#[trigger] journal[i]).grave != r.grave)
            ==> journal.push(r).filter(rests_in(seq![r.grave])) == seq![r] && journal.push(
            r,
        ).filter(rests_elsewhere(seq![r.grave])) == journal,
{
    let all = journal.push(r);
    assert(all.drop_last() == journal);
    if forall|i: int| 0 <= i < journal.len() ==> (#[trigger] journal[i]).grave != r.grave {
        lemma_none_rest_there(journal, r.grave);
        reveal(Seq::filter);
        assert(seq![r.grave].contains(r.grave)) by {
            assert(seq![r.grave][0] == r.grave);
        }
    }
}

/// A journal in which no record rests in `grave` keeps all its records, and
/// gives none, when that grave is asked for.
proof fn lemma_none_rest_there(journal: Seq<RecordView>, grave: Seq<char>)
    requires
        forall|i: int| 0 <= i < journal.len() ==> (#[trigger] journal[i]).grave != grave,
    ensures
        journal.filter(rests_in(seq![grave])) == Seq::<RecordView>::empty(),
        journal.filter(rests_elsewhere(seq![grave])) == journal,
    decreases journal.len(),
{
    reveal(Seq::filter);
    if journal.len() > 0 {
        let older = journal.drop_last();
        assert forall|i: int| 0 <= i < older.len() implies (#[trigger] older[i]).grave != grave by {
            assert(older[i] == journal[i]);
        }
        lemma_none_rest_there(older, grave);
        let g = journal.last().grave;
        assert(!seq![grave].contains(g)) by {
            if seq![grave].contains(g) {
                let k = choose|k: int| 0 <= k < seq![grave].len() && seq![grave][k] == g;
            }
        }
    }
}

/// Last buried, first resurrected: after burials `a`, `b` and `c`, in this
/// order, searches that each follow the resurrection of what the one before
/// found give `c`, then `b`, then `a`, then nothing. `present1`, `present2`
/// and `present3` list the graves at the time of each search.
pub proof fn lemma_newest_comes_back_first(
    a: RecordView,
    b: RecordView,
    c: RecordView,
    actor: Seq<char>,
    graveyard: Seq<char>,
    present1: Seq<Seq<char>>,
    present2: Seq<Seq<char>>,
    present3: Seq<Seq<char>>,
    present4: Seq<Seq<char>>,
)
    requires
        is_standing(c, actor, graveyard, present1),
        is_standing(b, actor, graveyard, present2),
        is_standing(a, actor, graveyard, present3),
        a.grave != b.grave,
        a.grave != c.grave,
        b.grave != c.grave,
    ensures
        last_bury(seq![a, b, c], actor, graveyard, present1).target == Some(c.grave),
        seq![a, b, c].filter(rests_elsewhere(seq![c.grave])) == seq![a, b],
        last_bury(seq![a, b], actor, graveyard, present2).target == Some(b.grave),
        seq![a, b].filter(rests_elsewhere(seq![b.grave])) == seq![a],
        last_bury(seq![a], actor, graveyard, present3).target == Some(a.grave),
        seq![a].filter(rests_elsewhere(seq![a.grave])) == Seq::<RecordView>::empty(),
        last_bury(Seq::empty(), actor, graveyard, present4).target.is_none(),
{
    let none = Seq::<RecordView>::empty();
    assert(seq![a].push(b) == seq![a, b]);
    assert(seq![a, b].push(c) == seq![a, b, c]);
    lemma_bury_then_resurrect(seq![a, b], c, actor, graveyard, present1);
    lemma_bury_then_resurrect(seq![a], b, actor, graveyard, present2);
    lemma_bury_then_resurrect(none, a, actor, graveyard, present3);
}

/// A stale record is passed over and pruned: when the newest record is the
/// actor's burial of an object from outside the graveyard and its grave is
/// gone, the search goes on as if the record were not there and reports the
/// grave as stale; and the journal without the stale graves holds no record
/// of that grave, and still holds every record whose grave is present.
pub proof fn lemma_stale_grave_is_struck(
    journal: Seq<RecordView>,
    r: RecordView,
    actor: Seq<char>,
    graveyard: Seq<char>,
    present: Seq<Seq<char>>,
)
    requires
        r.actor == actor,
        !starts_with(r.original, graveyard),
        !present.contains(r.grave),
    ensures
        last_bury(journal.push(r), actor, graveyard, present).target == last_bury(
            journal,
            actor,
            graveyard,
            present,
        ).target,
        last_bury(journal.push(r), actor, graveyard, present).stale == seq![r.grave] + last_bury(
            journal,
            actor,
            graveyard,
            present,
        ).stale,
        forall|i: int|
            0 <= i < journal.push(r).filter(
                rests_elsewhere(last_bury(journal.push(r), actor, graveyard, present).stale),
            ).len() ==> (#[trigger] journal.push(r).filter(
                rests_elsewhere(last_bury(journal.push(r), actor, graveyard, present).stale),
            )[i]).grave != r.grave,
        forall|i: int|
            0 <= i < journal.len() && present.contains((#[trigger] journal[i]).grave)
                ==> journal.push(r).filter(
                rests_elsewhere(last_bury(journal.push(r), actor, graveyard, present).stale),
            ).contains(journal[i]),
{
    broadcast use vstd::seq_lib::group_filter_ensures;

    let all = journal.push(r);
    assert(all.drop_last() == journal);
    let found = last_bury(all, actor, graveyard, present);
    let kept = all.filter(rests_elsewhere(found.stale));
    assert(found.stale[0] == r.grave);
    lemma_resolved_sound(all, Seq::empty(), actor, graveyard, present);
    assert forall|i: int| 0 <= i < kept.len() implies (#[trigger] kept[i]).grave != r.grave by {
        assert(rests_elsewhere(found.stale)(kept[i]));
    }
    assert forall|i: int|
        0 <= i < journal.len() && present.contains((#[trigger] journal[i]).grave) implies kept.contains(
        journal[i],
    ) by {
        if found.stale.contains(journal[i].grave) {
            let k = choose|k: int| 0 <= k < found.stale.len() && found.stale[k] == journal[i].grave;
        }
    }
}

/// Whether `records` tells of no return by `actor`: none of the actor's
/// records has its original in the graveyard.
pub open spec fn is_plain(records: Seq<RecordView>, actor: Seq<char>, graveyard: Seq<char>) -> bool {
    forall|i: int|
        0 <= i < records.len() && (#[trigger] records[i]).actor == actor ==> !starts_with(
            records[i].original,
            graveyard,
        )
}

/// Whether every record of `actor` behind place `i` rests in a grave that
/// is gone.
pub open spec fn all_gone_behind(
    records: Seq<RecordView>,
    actor: Seq<char>,
    present: Seq<Seq<char>>,
    i: int,
) -> bool {
    forall|j: int|
        0 <= j < records.len() && i < j && (#[trigger] records[j]).actor == actor
            ==> !present.contains(records[j].grave)
}

/// What holds behind a place in a journal holds in the journal with one more
/// record, if that record is another actor's or rests in a grave that is
/// gone.
proof fn lemma_gone_behind_grows(
    older: Seq<RecordView>,
    r: RecordView,
    actor: Seq<char>,
    present: Seq<Seq<char>>,
    i: int,
)
    requires
        all_gone_behind(older, actor, present, i),
        r.actor != actor || !present.contains(r.grave),
    ensures
        all_gone_behind(older.push(r), actor, present, i),
{
    let records = older.push(r);
    assert forall|j: int|
        0 <= j < records.len() && i < j && (#[trigger] records[j]).actor
            == actor implies !present.contains(records[j].grave) by {
        if j < older.len() {
            assert(older[j] == records[j]);
        }
    }
}

/// In a journal without returns the search is a plain one: its target is the
/// grave of the actor's newest record whose grave is present, there is none
/// exactly where all the actor's graves are gone, and every record of the
/// actor that is newer than the target's is reported as stale.
pub proof fn lemma_plain_search(
    records: Seq<RecordView>,
    actor: Seq<char>,
    graveyard: Seq<char>,
    present: Seq<Seq<char>>,
)
    requires
        is_plain(records, actor, graveyard),
    ensures
        match last_bury(records, actor, graveyard, present).target {
            Some(grave) => exists|i: int|
                0 <= i < records.len() && (#[trigger] records[i]).actor == actor
                    && records[i].grave == grave && present.contains(grave) && all_gone_behind(
                    records,
                    actor,
                    present,
                    i,
                ),
            None => all_gone_behind(records, actor, present, -1),
        },
        forall|j: int|
            0 <= j < records.len() && (#[trigger] records[j]).actor == actor && !present.contains(
                records[j].grave,
            ) && all_gone_behind(records, actor, present, j) ==> last_bury(
                records,
                actor,
                graveyard,
                present,
            ).stale.contains(records[j].grave),
    decreases records.len(),
{
    if records.len() > 0 {
        let r = records.last();
        let older = records.drop_last();
        let last = records.len() - 1;
        assert(older.push(r) == records);
        assert forall|i: int| 0 <= i < older.len() implies #[trigger] older[i] == records[i] by {}
        lemma_plain_search(older, actor, graveyard, present);
        let found = last_bury(records, actor, graveyard, present);
        let rest = last_bury(older, actor, graveyard, present);
        if r.actor != actor {
            if let Some(grave) = rest.target {
                let i = choose|i: int|
                    0 <= i < older.len() && (#[trigger] older[i]).actor == actor && older[i].grave
                        == grave && present.contains(grave) && all_gone_behind(
                        older,
                        actor,
                        present,
                        i,
                    );
                lemma_gone_behind_grows(older, r, actor, present, i);
            } else {
                lemma_gone_behind_grows(older, r, actor, present, -1);
            }
            assert forall|j: int|
                0 <= j < records.len() && (#[trigger] records[j]).actor == actor
                    && !present.contains(records[j].grave) && all_gone_behind(
                    records,
                    actor,
                    present,
                    j,
                ) implies found.stale.contains(records[j].grave) by {
                assert(older[j] == records[j]);
            }
        } else if present.contains(r.grave) {
            assert forall|j: int|
                0 <= j < records.len() && (#[trigger] records[j]).actor == actor
                    && !present.contains(records[j].grave) && all_gone_behind(
                    records,
                    actor,
                    present,
                    j,
                ) implies found.stale.contains(records[j].grave) by {
                if j < last {
                    assert(records[last].actor == actor);
                }
            }
        } else {
            assert(found.stale[0] == r.grave);
            if let Some(grave) = rest.target {
                let i = choose|i: int|
                    0 <= i < older.len() && (#[trigger] older[i]).actor == actor && older[i].grave
                        == grave && present.contains(grave) && all_gone_behind(
                        older,
                        actor,
                        present,
                        i,
                    );
                lemma_gone_behind_grows(older, r, actor, present, i);
            } else {
                lemma_gone_behind_grows(older, r, actor, present, -1);
            }
            assert forall|j: int|
                0 <= j < records.len() && (#[trigger] records[j]).actor == actor
                    && !present.contains(records[j].grave) && all_gone_behind(
                    records,
                    actor,
                    present,
                    j,
                ) implies found.stale.contains(records[j].grave) by {
                if j < last {
                    let k = choose|k: int|
                        0 <= k < rest.stale.len() && rest.stale[k] == older[j].grave;
                    assert(found.stale[k + 1] == rest.stale[k]);
                }
            }
        }
    }
}

} // verus!
