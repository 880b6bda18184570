//! The organizer pass: what is decided for each entry of the listing, and
//! the plan of a whole pass. The decisions are pure; carrying a move out
//! on the filesystem is the caller's part.
//!
//! A subdirectory is skipped. A file without an extension ends the pass
//! with an error, and the entries after it stay unprocessed. A file whose
//! resolved category is "INI" is skipped. Any other file is moved into the
//! category subdirectory of its parent, keeping its name.

use vstd::prelude::*;
use crate::classify::{ext_of, map_matches_table, resolved_category, extension_of, resolve_extension};
use crate::listing::{Entry, EntryView};
use crate::paths::Separator;
use crate::text::push_char;

verus! {

/// One planned move, as character sequences.
pub struct MoveView {
    pub name: Seq<char>,
    pub category: Seq<char>,
    pub dest_dir: Seq<char>,
    pub dest_path: Seq<char>,
}

/// What the pass decides for one entry, as character sequences.
pub enum ActionView {
    /// A subdirectory: left alone.
    SkipDir,
    /// A file whose resolved category is "INI": left alone.
    SkipIni,
    /// A file without an extension: the pass ends here with an error.
    MissingExtension,
    /// A file to move into its category subdirectory.
    MoveTo(MoveView),
}

/// One planned move: the file, its category, the category subdirectory,
/// and the full destination path.
pub struct MoveAction {
    pub name: String,
    pub category: String,
    pub dest_dir: String,
    pub dest_path: String,
}

impl View for MoveAction {
    type V = MoveView;

    open spec fn view(&self) -> MoveView {
        MoveView {
            name: self.name@,
            category: self.category@,
            dest_dir: self.dest_dir@,
            dest_path: self.dest_path@,
        }
    }
}

/// What the pass decides for one entry.
pub enum EntryAction {
    SkipDir,
    SkipIni,
    MissingExtension,
    MoveTo(MoveAction),
}

impl View for EntryAction {
    type V = ActionView;

    open spec fn view(&self) -> ActionView {
        match self {
            EntryAction::SkipDir => ActionView::SkipDir,
            EntryAction::SkipIni => ActionView::SkipIni,
            EntryAction::MissingExtension => ActionView::MissingExtension,
            EntryAction::MoveTo(m) => ActionView::MoveTo(m@),
        }
    }
}

/// The category subdirectory a move goes to: the parent path, which ends
/// in the native separator, then the category, then one separator.
pub open spec fn dest_dir_of(parent: Seq<char>, cat: Seq<char>, sep: char) -> Seq<char> {
    parent + cat + seq![sep]
}

/// The decision for one entry of the listing.
pub open spec fn entry_action(e: EntryView, parent: Seq<char>, sep: char) -> ActionView {
    if e.is_dir {
        ActionView::SkipDir
    } else {
        match ext_of(e.name) {
            None => ActionView::MissingExtension,
            Some(x) => {
                let cat = resolved_category(x);
                if cat == "INI"@ {
                    ActionView::SkipIni
                } else {
                    ActionView::MoveTo(
                        MoveView {
                            name: e.name,
                            category: cat,
                            dest_dir: dest_dir_of(parent, cat, sep),
                            dest_path: dest_dir_of(parent, cat, sep) + e.name,
                        },
                    )
                }
            },
        }
    }
}

/// Decide one entry: skip it, end the pass, or plan its move.
pub fn plan_entry(
    entry: &Entry,
    parent: &String,
    name_map: &Vec<(String, String)>,
    sep: Separator,
) -> (a: EntryAction)
    requires
        map_matches_table(name_map@),
    ensures
        a@ == entry_action(entry@, parent@, sep.spec_char()),
{
    if entry.is_dir {
        return EntryAction::SkipDir;
    }
    match extension_of(entry.name.as_str()) {
        None => EntryAction::MissingExtension,
        Some(x) => {
            let cat = resolve_extension(name_map, &x);
            let ini: String = "INI".to_owned();
            if cat.eq(&ini) {
                EntryAction::SkipIni
            } else {
                let ghost sc = sep.spec_char();
                let mut dir = parent.clone().concat(cat.as_str());
                push_char(&mut dir, sep.to_char());
                let dest = dir.clone().concat(entry.name.as_str());
                proof {
                    assert(dir@ =~= dest_dir_of(parent@, cat@, sc));
                }
                EntryAction::MoveTo(
                    MoveAction {
                        name: entry.name.clone(),
                        category: cat,
                        dest_dir: dir,
                        dest_path: dest,
                    },
                )
            }
        },
    }
}

/// The outcome of planning a whole pass, as character sequences: the
/// moves decided before the pass ended, and the name of the file that
/// ended it early, if one did.
pub struct PlanView {
    pub moves: Seq<MoveView>,
    pub failed: Option<Seq<char>>,
}

/// The plan of a whole pass over the listing, in listing order. A file
/// without an extension ends the pass: the moves before it stand, the
/// entries after it are not processed.
pub open spec fn plan_spec(entries: Seq<EntryView>, parent: Seq<char>, sep: char) -> PlanView
    decreases entries.len(),
{
    if entries.len() == 0 {
        PlanView { moves: Seq::empty(), failed: None }
    } else {
        match entry_action(entries[0], parent, sep) {
            ActionView::MissingExtension => PlanView {
                moves: Seq::empty(),
                failed: Some(entries[0].name),
            },
            ActionView::MoveTo(m) => {
                let rest = plan_spec(entries.drop_first(), parent, sep);
                PlanView { moves: seq![m] + rest.moves, failed: rest.failed }
            },
            _ => plan_spec(entries.drop_first(), parent, sep),
        }
    }
}

/// The views of a listing.
pub open spec fn views_of_entries(v: Seq<Entry>) -> Seq<EntryView> {
    v.map_values(|e: Entry| e@)
}

/// The views of a sequence of planned moves.
pub open spec fn views_of_moves(v: Seq<MoveAction>) -> Seq<MoveView> {
    v.map_values(|m: MoveAction| m@)
}

/// The outcome of planning a whole pass: the moves decided before the
/// pass ended, and the name of the file that ended it early, if one did.
pub struct RunPlan {
    pub moves: Vec<MoveAction>,
    pub failed: Option<String>,
}

/// Plan a whole pass over the listing, in listing order.
pub fn plan_run(
    entries: &Vec<Entry>,
    parent: &String,
    name_map: &Vec<(String, String)>,
    sep: Separator,
) -> (r: RunPlan)
    requires
        map_matches_table(name_map@),
    ensures
        ({
            let p = plan_spec(views_of_entries(entries@), parent@, sep.spec_char());
            &&& views_of_moves(r.moves@) == p.moves
            &&& match (r.failed, p.failed) {
                (Some(f), Some(g)) => f@ == g,
                (None, None) => true,
                _ => false,
            }
        }),
{
    let ghost s = views_of_entries(entries@);
    let ghost sc = sep.spec_char();
    let n = entries.len();
    let mut moves: Vec<MoveAction> = Vec::new();
    let mut i: usize = 0;
    proof {
        assert(s.skip(0) =~= s);
        assert(views_of_moves(moves@) + plan_spec(s, parent@, sc).moves =~= plan_spec(
            s,
            parent@,
            sc,
        ).moves);
    }
    while i < n
        invariant
            map_matches_table(name_map@),
            s == views_of_entries(entries@),
            sc == sep.spec_char(),
            n == entries@.len(),
            0 <= i <= n,
            plan_spec(s, parent@, sc).moves == views_of_moves(moves@) + plan_spec(
                s.skip(i as int),
                parent@,
                sc,
            ).moves,
            plan_spec(s, parent@, sc).failed == plan_spec(s.skip(i as int), parent@, sc).failed,
        decreases n - i,
    {
        let ghost old_moves = moves@;
        let ghost tail = s.skip(i as int);
        proof {
            assert(tail[0] == s[i as int]);
            assert(s[i as int] == entries@[i as int]@);
            assert(tail.drop_first() =~= s.skip(i + 1));
        }
        let a = plan_entry(&entries[i], parent, name_map, sep);
        match a {
            EntryAction::MoveTo(mv) => {
                moves.push(mv);
                proof {
                    assert(views_of_moves(moves@) =~= views_of_moves(old_moves) + seq![mv@]);
                    assert(views_of_moves(moves@) + plan_spec(s.skip(i + 1), parent@, sc).moves
                        =~= views_of_moves(old_moves) + plan_spec(tail, parent@, sc).moves);
                }
            },
            EntryAction::MissingExtension => {
                let failed_name = entries[i].name.clone();
                proof {
                    assert(plan_spec(tail, parent@, sc).moves =~= Seq::<MoveView>::empty());
                    assert(views_of_moves(moves@) + plan_spec(tail, parent@, sc).moves
                        =~= views_of_moves(moves@));
                }
                return RunPlan { moves, failed: Some(failed_name) };
            },
            _ => {
            },
        }
        i += 1;
    }
    proof {
        assert(s.skip(n as int) =~= Seq::<EntryView>::empty());
        assert(views_of_moves(moves@) + plan_spec(s.skip(n as int), parent@, sc).moves
            =~= views_of_moves(moves@));
    }
    RunPlan { moves, failed: None }
}

/// No planned move carries the category "INI": such files are never
/// moved, and no "INI" subdirectory is ever made for one.
pub proof fn lemma_no_ini_moves(entries: Seq<EntryView>, parent: Seq<char>, sep: char)
    ensures
        forall|i: int|
            0 <= i < plan_spec(entries, parent, sep).moves.len() ==> (#[trigger] plan_spec(
                entries,
                parent,
                sep,
            ).moves[i]).category != "INI"@,
    decreases entries.len(),
{
    if entries.len() > 0 {
        lemma_no_ini_moves(entries.drop_first(), parent, sep);
    }
}

/// An entry a pass leaves in place: a subdirectory, or a file whose
/// resolved category is "INI".
pub open spec fn settled(e: EntryView) -> bool {
    e.is_dir || match ext_of(e.name) {
        Some(x) => resolved_category(x) == "INI"@,
        None => false,
    }
}

/// A listing of settled entries alone plans no move and no error.
pub proof fn lemma_settled_plan_empty(entries: Seq<EntryView>, parent: Seq<char>, sep: char)
    requires
        forall|i: int| 0 <= i < entries.len() ==> settled(#[trigger] entries[i]),
    ensures
        plan_spec(entries, parent, sep).moves == Seq::<MoveView>::empty(),
        plan_spec(entries, parent, sep).failed is None,
    decreases entries.len(),
{
    if entries.len() > 0 {
        let t = entries.drop_first();
        assert(forall|i: int| 0 <= i < t.len() ==> settled(#[trigger] t[i]));
        lemma_settled_plan_empty(t, parent, sep);
    }
}

/// The entries of the listing that a successful pass leaves in the
/// directory: subdirectories and skipped "INI" files; moved files are
/// gone.
pub open spec fn survivors(entries: Seq<EntryView>, parent: Seq<char>, sep: char) -> Seq<EntryView>
    decreases entries.len(),
{
    if entries.len() == 0 {
        Seq::empty()
    } else {
        let rest = survivors(entries.drop_first(), parent, sep);
        match entry_action(entries[0], parent, sep) {
            ActionView::MoveTo(m) => rest,
            _ => seq![entries[0]] + rest,
        }
    }
}

/// The category subdirectories that a pass makes, as listing entries.
pub open spec fn created_dirs(entries: Seq<EntryView>, parent: Seq<char>, sep: char) -> Seq<
    EntryView,
> {
    plan_spec(entries, parent, sep).moves.map_values(
        |m: MoveView| EntryView { name: m.category, is_dir: true },
    )
}

/// The directory's listing after a successful pass: what the pass left
/// in place, and the category subdirectories it made, in some order.
pub open spec fn after_run(entries: Seq<EntryView>, parent: Seq<char>, sep: char) -> Seq<
    EntryView,
> {
    survivors(entries, parent, sep) + created_dirs(entries, parent, sep)
}

proof fn lemma_survivors_settled(entries: Seq<EntryView>, parent: Seq<char>, sep: char)
    requires
        plan_spec(entries, parent, sep).failed is None,
    ensures
        forall|i: int|
            0 <= i < survivors(entries, parent, sep).len() ==> settled(
                #[trigger] survivors(entries, parent, sep)[i],
            ),
    decreases entries.len(),
{
    if entries.len() > 0 {
        let t = entries.drop_first();
        let head = entry_action(entries[0], parent, sep);
        assert(!(head is MissingExtension));
        assert(plan_spec(t, parent, sep).failed is None);
        lemma_survivors_settled(t, parent, sep);
        if !(head is MoveTo) {
            assert(settled(entries[0]));
            assert forall|i: int|
                0 <= i < survivors(entries, parent, sep).len() implies settled(
                #[trigger] survivors(entries, parent, sep)[i],
            ) by {
                if i > 0 {
                    assert(survivors(entries, parent, sep)[i] == survivors(t, parent, sep)[i - 1]);
                }
            }
        }
    }
}

/// Idempotence: after one successful pass, a second pass over what the
/// directory then holds plans no move and no error. Every entry of the
/// second listing is a subdirectory or a skipped "INI" file, and
/// `lemma_settled_plan_empty` applies to it in any order.
pub proof fn lemma_second_run_plans_nothing(entries: Seq<EntryView>, parent: Seq<char>, sep: char)
    requires
        plan_spec(entries, parent, sep).failed is None,
    ensures
        plan_spec(after_run(entries, parent, sep), parent, sep).moves == Seq::<MoveView>::empty(),
        plan_spec(after_run(entries, parent, sep), parent, sep).failed is None,
{
    let a = after_run(entries, parent, sep);
    lemma_survivors_settled(entries, parent, sep);
    assert(forall|i: int| 0 <= i < a.len() ==> settled(#[trigger] a[i]));
    lemma_settled_plan_empty(a, parent, sep);
}

} // verus!
