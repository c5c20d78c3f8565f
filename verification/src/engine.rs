//! What to do with a request: where the graveyard is, where an object is
//! buried, which graves are opened and where their objects go back to.

use crate::journal::{
    can_record, entries, graves_of, lines_of_graves, rests_below, rests_elsewhere, rests_in,
    seance, Record, RecordView,
};
use crate::path::{
    components, is_absolute, joined_absolute, lemma_grave_below_root, names, path_starts_with,
    starts_with,
};
use crate::resolver::{get_last_bury, last_bury, lemma_bury_then_resurrect};
use crate::text::{contains_text, decimal, texts};
use crate::transfer::Outcome;
use crate::util::{
    candidate, first_free, is_first_free, join_absolute, lemma_first_free_exists, rename_grave,
    renamed,
};
use vstd::prelude::*;

verus! {

/// The graveyard of last resort; the user's name is appended to it.
pub const GRAVEYARD: &'static str = "/tmp/graveyard";

/// The name of a user whose name is not known.
pub const UNKNOWN_USER: &'static str = "unknown";

/// The root of the graveyard: the one asked for on the command line; else
/// the one that the environment names; else the default graveyard below the
/// user's data directory; else the default graveyard with a hyphen and the
/// user's name.
pub open spec fn chosen_graveyard(
    flag: Option<Seq<char>>,
    named: Option<Seq<char>>,
    data_home: Option<Seq<char>>,
    user: Seq<char>,
) -> Seq<char> {
    match (flag, named, data_home) {
        (Some(f), _, _) => f,
        (None, Some(n), _) => n,
        (None, None, Some(d)) => d + GRAVEYARD@,
        (None, None, None) => GRAVEYARD@ + seq!['-'] + user,
    }
}

/// Choose the root of the graveyard.
pub fn graveyard_root(
    flag: Option<&str>,
    named: Option<&str>,
    data_home: Option<&str>,
    user: &str,
) -> (root: String)
    ensures
        root@ == chosen_graveyard(
            match flag {
                Some(f) => Some(f@),
                None => None,
            },
            match named {
                Some(n) => Some(n@),
                None => None,
            },
            match data_home {
                Some(d) => Some(d@),
                None => None,
            },
            user@,
        ),
{
    match (flag, named, data_home) {
        (Some(f), _, _) => f.to_owned(),
        (None, Some(n), _) => n.to_owned(),
        (None, None, Some(d)) => {
            let mut root = d.to_owned();
            root.append(GRAVEYARD);
            root
        },
        (None, None, None) => {
            let mut root = GRAVEYARD.to_owned();
            root.push('-');
            root.append(user);
            root
        },
    }
}

/// The name under which a user acts: the name given, or `unknown`.
pub fn actor_name(user: Option<&str>) -> (actor: String)
    ensures
        actor@ == match user {
            Some(u) => u@,
            None => UNKNOWN_USER@,
        },
{
    match user {
        Some(u) => u.to_owned(),
        None => UNKNOWN_USER.to_owned(),
    }
}

/// What a command asks for.
#[derive(Debug, Clone, Copy, PartialEq, Eq, Structural)]
pub enum Request {
    /// Erase the whole graveyard.
    Decompose,
    /// Restore graves.
    Unbury,
    /// List the graves of the objects buried from the current directory.
    Seance,
    /// Bury the targets.
    Bury,
    /// Nothing was asked for: show how the command is used.
    Usage,
}

/// Tell what a command asks for from what was given to it. Erasing the
/// graveyard goes before everything else, restoring before listing, and
/// listing before burying.
pub fn select_request(decompose: bool, unbury: bool, seance: bool, targets: bool) -> (request:
    Request)
    ensures
        request == if decompose {
            Request::Decompose
        } else if unbury {
            Request::Unbury
        } else if seance {
            Request::Seance
        } else if targets {
            Request::Bury
        } else {
            Request::Usage
        },
{
    if decompose {
        Request::Decompose
    } else if unbury {
        Request::Unbury
    } else if seance {
        Request::Seance
    } else if targets {
        Request::Bury
    } else {
        Request::Usage
    }
}

/// The path to use for `wanted`: `wanted` itself where `occupied` does not
/// hold it, and else its first free other name.
pub open spec fn settled(wanted: Seq<char>, occupied: Seq<Seq<char>>) -> Seq<char> {
    if occupied.contains(wanted) {
        renamed(wanted, occupied)
    } else {
        wanted
    }
}

/// Find a path at which nothing stands: `wanted`, or where `occupied` holds
/// it, `wanted~1`, `wanted~2` and so on, the first that `occupied` does not
/// hold.
pub fn resolve_collision(wanted: &str, occupied: &Vec<String>) -> (free: String)
    ensures
        free@ == settled(wanted@, texts(occupied@)),
        !texts(occupied@).contains(free@),
{
    let w = wanted.to_owned();
    if contains_text(occupied, &w) {
        rename_grave(wanted, occupied)
    } else {
        w
    }
}

/// The path that is settled on is not occupied, and differs from the wanted
/// path where that one is.
proof fn lemma_settled_is_free(wanted: Seq<char>, occupied: Seq<Seq<char>>)
    ensures
        !occupied.contains(settled(wanted, occupied)),
        settled(wanted, occupied) == wanted <==> !occupied.contains(wanted),
        occupied.contains(wanted) ==> is_first_free(wanted, occupied, first_free(wanted, occupied)),
{
    if occupied.contains(wanted) {
        lemma_first_free_exists(wanted, occupied);
        let k = first_free(wanted, occupied);
        assert(is_first_free(wanted, occupied, k));
    }
}

/// Collisions are avoided. The path that is settled on is not occupied, and
/// is the wanted path exactly where that one is free; where it is not, it is
/// the wanted path with a tilde and the first number that is free. So an
/// object that is buried where another rests gets a grave of its own: once
/// the first grave is occupied, settling the same wanted path again gives
/// another path. And since the two graves differ, each is opened by its own
/// name: the records that rest in one of them are none of the other's.
pub proof fn lemma_graves_do_not_collide(
    wanted: Seq<char>,
    occupied: Seq<Seq<char>>,
    later: Seq<Seq<char>>,
    journal: Seq<RecordView>,
)
    ensures
        !occupied.contains(settled(wanted, occupied)),
        settled(wanted, occupied) == wanted <==> !occupied.contains(wanted),
        occupied.contains(wanted) ==> settled(wanted, occupied) == candidate(
            wanted,
            first_free(wanted, occupied),
        ) && is_first_free(wanted, occupied, first_free(wanted, occupied)),
        later.contains(settled(wanted, occupied)) ==> settled(wanted, later) != settled(
            wanted,
            occupied,
        ) && !later.contains(settled(wanted, later)),
        forall|i: int|
            0 <= i < journal.filter(rests_in(seq![settled(wanted, occupied)])).len() ==> (
            #[trigger] journal.filter(rests_in(seq![settled(wanted, occupied)]))[i]).grave
                == settled(wanted, occupied),
{
    broadcast use vstd::seq_lib::group_filter_ensures;

    lemma_settled_is_free(wanted, occupied);
    lemma_settled_is_free(wanted, later);
    let grave = settled(wanted, occupied);
    let found = journal.filter(rests_in(seq![grave]));
    assert forall|i: int| 0 <= i < found.len() implies (#[trigger] found[i]).grave == grave by {
        let k = choose|k: int| 0 <= k < seq![grave].len() && seq![grave][k] == found[i].grave;
    }
}

/// Why an object is not buried.
#[derive(Debug, Clone, Copy, PartialEq, Eq, Structural)]
pub enum BuryError {
    /// The object is the graveyard or lies in it: it is buried already.
    AlreadyInGraveyard,
    /// The actor's name, the object's path or the grave's path holds a tab
    /// or a line feed, and could not be written to the journal.
    Unrecordable,
}

/// The grave for `source` in `graveyard`: the path that mirrors `source`
/// below `graveyard`, or its first free other name where that is occupied.
pub open spec fn grave_for(
    source: Seq<char>,
    graveyard: Seq<char>,
    occupied: Seq<Seq<char>>,
) -> Seq<char> {
    settled(joined_absolute(graveyard, source), occupied)
}

/// The record of a burial by `actor` of `source` in `graveyard`, or why there
/// is no such burial.
pub open spec fn burial(
    source: Seq<char>,
    graveyard: Seq<char>,
    actor: Seq<char>,
    occupied: Seq<Seq<char>>,
) -> Result<RecordView, BuryError> {
    let record = RecordView {
        actor,
        original: source,
        grave: grave_for(source, graveyard, occupied),
    };
    if starts_with(source, graveyard) {
        Err(BuryError::AlreadyInGraveyard)
    } else if !record.is_recordable() {
        Err(BuryError::Unrecordable)
    } else {
        Ok(record)
    }
}

/// Decide where `source` is buried, before anything is moved. The record
/// names the grave to move it to, and is the one to write to the journal
/// once the object rests there. `occupied` lists the paths at which
/// something stands.
pub fn plan_burial(source: &str, graveyard: &str, actor: &str, occupied: &Vec<String>) -> (plan:
    Result<Record, BuryError>)
    ensures
        match plan {
            Ok(record) => burial(source@, graveyard@, actor@, texts(occupied@)) == Ok::<
                RecordView,
                BuryError,
            >(record@),
            Err(e) => burial(source@, graveyard@, actor@, texts(occupied@)) == Err::<
                RecordView,
                BuryError,
            >(e),
        },
{
    if path_starts_with(source, graveyard) {
        return Err(BuryError::AlreadyInGraveyard);
    }
    let wanted = join_absolute(graveyard, source);
    let grave = resolve_collision(wanted.as_str(), occupied);
    if !can_record(actor) || !can_record(source) || !can_record(grave.as_str()) {
        return Err(BuryError::Unrecordable);
    }
    Ok(Record { actor: actor.to_owned(), original: source.to_owned(), grave })
}

/// A grave lies in its graveyard: the record of a burial names a grave that
/// is the graveyard's root or below it, absolute where the root is, not
/// among the occupied paths, and an original that is outside the graveyard.
pub proof fn lemma_grave_in_graveyard(
    source: Seq<char>,
    graveyard: Seq<char>,
    actor: Seq<char>,
    occupied: Seq<Seq<char>>,
)
    requires
        burial(source, graveyard, actor, occupied).is_ok(),
    ensures
        starts_with(burial(source, graveyard, actor, occupied).unwrap().grave, graveyard),
        graveyard.len() > 0 ==> is_absolute(
            burial(source, graveyard, actor, occupied).unwrap().grave,
        ) == is_absolute(graveyard),
        !occupied.contains(burial(source, graveyard, actor, occupied).unwrap().grave),
        !starts_with(burial(source, graveyard, actor, occupied).unwrap().original, graveyard),
        burial(source, graveyard, actor, occupied).unwrap().original == source,
        burial(source, graveyard, actor, occupied).unwrap().actor == actor,
{
    let wanted = joined_absolute(graveyard, source);
    let grave = settled(wanted, occupied);
    lemma_settled_is_free(wanted, occupied);
    if graveyard.len() > 0 {
        if occupied.contains(wanted) {
            let k = first_free(wanted, occupied);
            let suffix = seq!['~'] + decimal(k);
            assert(grave == wanted + suffix);
            lemma_grave_below_root(graveyard, source, suffix);
        } else {
            lemma_grave_below_root(graveyard, source, Seq::empty());
        }
    } else {
        assert(components(graveyard) == Seq::<Seq<char>>::empty()) by {
            assert(names(graveyard) == Seq::<Seq<char>>::empty());
        }
    }
}

/// The records to restore, and the graves to strike from the journal
/// unopened.
#[derive(Debug, PartialEq, Eq)]
pub struct Exhumation {
    /// The records of the graves to open, in the journal's order.
    pub records: Vec<Record>,
    /// The graves that were found recorded but gone.
    pub stale: Vec<String>,
}

/// An exhumation as texts.
pub struct ExhumationView {
    pub records: Seq<RecordView>,
    pub stale: Seq<Seq<char>>,
}

impl View for Exhumation {
    type V = ExhumationView;

    open spec fn view(&self) -> ExhumationView {
        ExhumationView { records: entries(self.records@), stale: texts(self.stale@) }
    }
}

/// The test "is one of `present`".
pub open spec fn is_among(present: Seq<Seq<char>>) -> spec_fn(Seq<char>) -> bool {
    |g: Seq<char>| present.contains(g)
}

/// The graves that a request names: those given, and where the request is
/// scoped to a directory, the graves that are present and mirror that
/// directory or lie below its mirror.
pub open spec fn named_graves(
    explicit: Seq<Seq<char>>,
    scope: Option<Seq<char>>,
    journal: Seq<RecordView>,
    graveyard: Seq<char>,
    present: Seq<Seq<char>>,
) -> Seq<Seq<char>> {
    match scope {
        Some(cwd) => explicit + graves_of(
            journal.filter(rests_below(joined_absolute(graveyard, cwd))),
        ).filter(is_among(present)),
        None => explicit,
    }
}

/// What a request to restore selects. Where it names graves, those are
/// opened, whoever dug them. Where it names none, the last grave that
/// `actor` dug and that still holds is opened, and the stale graves met on
/// the way to it are reported.
pub open spec fn exhumed(
    explicit: Seq<Seq<char>>,
    scope: Option<Seq<char>>,
    journal: Seq<RecordView>,
    actor: Seq<char>,
    graveyard: Seq<char>,
    present: Seq<Seq<char>>,
) -> ExhumationView {
    let named = named_graves(explicit, scope, journal, graveyard, present);
    if named.len() > 0 {
        ExhumationView { records: journal.filter(rests_in(named)), stale: Seq::empty() }
    } else {
        let found = last_bury(journal, actor, graveyard, present);
        match found.target {
            Some(grave) => ExhumationView {
                records: journal.filter(rests_in(seq![grave])),
                stale: found.stale,
            },
            None => ExhumationView { records: Seq::empty(), stale: found.stale },
        }
    }
}

/// Select the records to restore: those of the graves in `explicit`; with
/// them, where `scope` names a directory, those of the present graves that
/// mirror it or lie below its mirror; and where that names nothing, the one
/// of the last burial by `actor` that still holds.
pub fn exhume(
    explicit: &Vec<String>,
    scope: Option<&str>,
    journal: &Vec<Record>,
    actor: &str,
    graveyard: &str,
    present: &Vec<String>,
) -> (chosen: Exhumation)
    ensures
        chosen@ == exhumed(
            texts(explicit@),
            match scope {
                Some(cwd) => Some(cwd@),
                None => None,
            },
            entries(journal@),
            actor@,
            graveyard@,
            texts(present@),
        ),
{
    let mut named: Vec<String> = Vec::new();
    let mut i: usize = 0;
    while i < explicit.len()
        invariant
            i <= explicit.len(),
            texts(named@) == texts(explicit@).take(i as int),
        decreases explicit.len() - i,
    {
        let g = explicit[i].clone();
        proof {
            assert(texts(named@.push(g)) == texts(named@).push(g@));
        }
        named.push(g);
        i += 1;
    }
    assert(texts(explicit@).take(explicit.len() as int) == texts(explicit@));
    if let Some(cwd) = scope {
        let gravepath = join_absolute(graveyard, cwd);
        let below = seance(journal, gravepath.as_str());
        let ghost all = texts(below@);
        let ghost test = is_among(texts(present@));
        let mut k: usize = 0;
        proof {
            reveal(Seq::filter);
        }
        while k < below.len()
            invariant
                k <= below.len(),
                all == texts(below@),
                test == is_among(texts(present@)),
                texts(named@) == texts(explicit@) + all.take(k as int).filter(test),
            decreases below.len() - k,
        {
            proof {
                reveal(Seq::filter);
                assert(all.take(k + 1).drop_last() == all.take(k as int));
            }
            if contains_text(present, &below[k]) {
                let g = below[k].clone();
                proof {
                    let kept = all.take(k as int).filter(test);
                    assert((texts(explicit@) + kept).push(g@) == texts(explicit@) + kept.push(g@));
                }
                named.push(g);
            }
            k += 1;
        }
        assert(all.take(below.len() as int) == all);
    }
    if named.len() > 0 {
        let stale: Vec<String> = Vec::new();
        assert(texts(stale@) == Seq::<Seq<char>>::empty());
        return Exhumation { records: lines_of_graves(journal, &named), stale };
    }
    let found = get_last_bury(journal, actor, graveyard, present);
    match found.target {
        Some(grave) => {
            let mut one: Vec<String> = Vec::new();
            one.push(grave);
            assert(texts(one@) == seq![grave@]);
            Exhumation { records: lines_of_graves(journal, &one), stale: found.stale }
        },
        None => {
            let none: Vec<Record> = Vec::new();
            assert(entries(none@) == Seq::<RecordView>::empty());
            Exhumation { records: none, stale: found.stale }
        },
    }
}

/// Whether the targets that follow are still dealt with after a transfer
/// that ended as `outcome`. A target that was moved, or that failed and left
/// nothing behind, does not hold up the others; a failure that may have left
/// a partial copy in place ends the run.
pub fn batch_goes_on(outcome: Outcome) -> (goes_on: bool)
    ensures
        goes_on == !(outcome is Unsafe),
{
    match outcome {
        Outcome::Unsafe(_) => false,
        _ => true,
    }
}

/// Burying and then restoring brings an object back to where it was: once
/// the record of a burial is the newest of the journal and the object rests
/// in its grave, a request that names nothing selects that record alone and
/// nothing stale; the object goes back to the very path it came from,
/// where nothing has taken its place; and the journal without the grave is
/// the journal as it was before the burial. This holds where every grave
/// that the journal recorded before was occupied when this one was dug.
pub proof fn lemma_buried_then_restored(
    journal: Seq<RecordView>,
    source: Seq<char>,
    graveyard: Seq<char>,
    actor: Seq<char>,
    occupied: Seq<Seq<char>>,
    present: Seq<Seq<char>>,
    later: Seq<Seq<char>>,
)
    requires
        burial(source, graveyard, actor, occupied).is_ok(),
        forall|i: int| 0 <= i < journal.len() ==> occupied.contains((#[trigger] journal[i]).grave),
        present.contains(burial(source, graveyard, actor, occupied).unwrap().grave),
        !later.contains(source),
    ensures
        exhumed(
            Seq::empty(),
            None,
            journal.push(burial(source, graveyard, actor, occupied).unwrap()),
            actor,
            graveyard,
            present,
        ) == (ExhumationView {
            records: seq![burial(source, graveyard, actor, occupied).unwrap()],
            stale: Seq::empty(),
        }),
        settled(burial(source, graveyard, actor, occupied).unwrap().original, later) == source,
        journal.push(burial(source, graveyard, actor, occupied).unwrap()).filter(
            rests_elsewhere(seq![burial(source, graveyard, actor, occupied).unwrap().grave]),
        ) == journal,
{
    let r = burial(source, graveyard, actor, occupied).unwrap();
    lemma_grave_in_graveyard(source, graveyard, actor, occupied);
    lemma_bury_then_resurrect(journal, r, actor, graveyard, present);
}

} // verus!
