//! Moving the state of a workspace out of its tree.

use vstd::prelude::*;
use vstd::string::*;
use crate::agents::outbox::among;
use crate::paths;
use crate::paths::join_path;
use crate::text;
use crate::text::{cat3, cat5, text_contains};

verus! {

/// What is moved. The log moves with what belongs to it; what the project keeps for
/// itself stays.
pub open spec fn moved_names() -> Seq<Seq<char>> {
    seq![
        "events.db"@,
        "events.db-wal"@,
        "events.db-shm"@,
        "artifacts"@,
        "snapshots"@,
        "logs"@,
        "trust.lock"@,
    ]
}

/// One thing that is moved.
pub struct Move {
    pub from: String,
    pub to: String,
}

/// What the moves are.
pub open spec fn moves(v: Seq<Move>) -> Seq<(Seq<char>, Seq<char>)> {
    v.map_values(|m: Move| (m.from@, m.to@))
}

/// The moves of these names: of those that are there and have no successor yet.
pub open spec fn planned(
    names: Seq<Seq<char>>,
    legacy: Seq<char>,
    state: Seq<char>,
    old: Seq<Seq<char>>,
    new: Seq<Seq<char>>,
) -> Seq<(Seq<char>, Seq<char>)>
    decreases names.len(),
{
    if names.len() == 0 {
        seq![]
    } else {
        let head = planned(names.drop_last(), legacy, state, old, new);
        let n = names.last();
        if old.contains(n) && !new.contains(n) {
            head.push((paths::joined_path(legacy, n), paths::joined_path(state, n)))
        } else {
            head
        }
    }
}

/// What is moved from the tree of a workspace to its state. `old` are the names in the
/// tree, `new` those in the state: nothing there is replaced.
pub fn migrate_legacy_state(
    cwd: &str,
    state: &str,
    old: &Vec<String>,
    new: &Vec<String>,
) -> (out: Vec<Move>)
    ensures
        moves(out@) == planned(
            moved_names(),
            paths::joined_path(cwd@, ".medha"@),
            state@,
            text::views(old@),
            text::views(new@),
        ),
{
    let legacy = join_path(cwd, ".medha");
    let names = [
        "events.db",
        "events.db-wal",
        "events.db-shm",
        "artifacts",
        "snapshots",
        "logs",
        "trust.lock",
    ];
    assert(text::strs(names@) =~= moved_names());
    let ghost all = moved_names();
    let mut out: Vec<Move> = Vec::new();
    let mut i: usize = 0;
    assert(moves(out@) =~= planned(
        all.take(0),
        legacy@,
        state@,
        text::views(old@),
        text::views(new@),
    ));
    while i < 7
        invariant
            i <= 7,
            names@.len() == 7,
            text::strs(names@) == all,
            all.len() == 7,
            moves(out@) == planned(
                all.take(i as int),
                legacy@,
                state@,
                text::views(old@),
                text::views(new@),
            ),
        decreases 7 - i,
    {
        assert(all.take(i + 1).drop_last() =~= all.take(i as int));
        assert(all.take(i + 1).last() == names@[i as int]@);
        if among(old, names[i]) && !among(new, names[i]) {
            let ghost was = out@;
            let m = Move {
                from: join_path(legacy.as_str(), names[i]),
                to: join_path(state, names[i]),
            };
            out.push(m);
            assert(moves(out@) =~= moves(was).push((m.from@, m.to@)));
        }
        i = i + 1;
    }
    assert(all.take(7) =~= all);
    out
}

/// What is said of a move that failed.
pub fn move_failed(m: &Move, error: &str) -> (out: String)
    ensures
        out@ == "warning: could not migrate "@ + m.from@ + " → "@ + m.to@ + " ("@ + error@
            + "). Move it manually to keep the old history."@,
{
    let head = cat5("warning: could not migrate ", m.from.as_str(), " → ", m.to.as_str(), " (");
    cat3(head.as_str(), error, "). Move it manually to keep the old history.")
}

/// The file that kept everything out of version control is the program's own, and goes:
/// it would hide what the project now keeps there.
pub fn own_ignore_file(content: &str) -> (yes: bool)
    ensures
        yes == text::contains(content@, "MEDHA local state"@),
{
    text_contains(content, "MEDHA local state")
}

proof fn lemma_planned(
    names: Seq<Seq<char>>,
    legacy: Seq<char>,
    state: Seq<char>,
    old: Seq<Seq<char>>,
    new: Seq<Seq<char>>,
    i: int,
)
    requires
        0 <= i < planned(names, legacy, state, old, new).len(),
    ensures
        exists|n: Seq<char>|
            #![trigger names.contains(n)]
            names.contains(n) && old.contains(n) && !new.contains(n) && planned(
                names,
                legacy,
                state,
                old,
                new,
            )[i] == (paths::joined_path(legacy, n), paths::joined_path(state, n)),
    decreases names.len(),
{
    let head = planned(names.drop_last(), legacy, state, old, new);
    if i < head.len() {
        lemma_planned(names.drop_last(), legacy, state, old, new, i);
        let n = choose|n: Seq<char>|
            #![trigger names.drop_last().contains(n)]
            names.drop_last().contains(n) && old.contains(n) && !new.contains(n) && head[i] == (
                paths::joined_path(legacy, n),
                paths::joined_path(state, n),
            );
        let k = choose|k: int| 0 <= k < names.drop_last().len() && names.drop_last()[k] == n;
        assert(names[k] == n);
        assert(names.contains(n));
    } else {
        assert(names[names.len() - 1] == names.last());
        assert(names.contains(names.last()));
    }
}

/// Nothing in the state is replaced: what is moved is one of the program's own, is there,
/// and has no successor yet.
pub proof fn law_moves_replace_nothing(
    legacy: Seq<char>,
    state: Seq<char>,
    old: Seq<Seq<char>>,
    new: Seq<Seq<char>>,
    i: int,
)
    requires
        0 <= i < planned(moved_names(), legacy, state, old, new).len(),
    ensures
        exists|n: Seq<char>|
            #![trigger moved_names().contains(n)]
            moved_names().contains(n) && old.contains(n) && !new.contains(n) && planned(
                moved_names(),
                legacy,
                state,
                old,
                new,
            )[i] == (paths::joined_path(legacy, n), paths::joined_path(state, n)),
{
    lemma_planned(moved_names(), legacy, state, old, new, i);
}

} // verus!
