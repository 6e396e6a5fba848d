//! The research lines of the status display: a mark for each upgrade done.
use crate::ids::Upgrade;
use crate::upgrades as up;
use vstd::prelude::*;

verus! {

/// Whether `done` holds `u`.
fn has_upgrade(done: &Vec<Upgrade>, u: Upgrade) -> (b: bool)
    ensures
        b == done@.contains(u),
{
    let mut i: usize = 0;
    while i < done.len()
        invariant
            i <= done@.len(),
            forall|k: int| 0 <= k < i ==> done@[k] != u,
        decreases done@.len() - i,
    {
        if done[i] == u {
            return true;
        }
        i = i + 1;
    }
    false
}

/// `icon` if the upgrade is done, `otherwise` if not.
pub open spec fn mark(done: Seq<Upgrade>, u: Upgrade, icon: Seq<char>, otherwise: Seq<char>) -> Seq<char> {
    if done.contains(u) { icon } else { otherwise }
}

/// The marks of three levels of an upgrade, run together: the icon for each
/// level done.
pub open spec fn levels(done: Seq<Upgrade>, l1: Upgrade, l2: Upgrade, l3: Upgrade, icon: Seq<char>) -> Seq<char> {
    mark(done, l1, icon, Seq::empty()) + mark(done, l2, icon, Seq::empty()) + mark(done, l3, icon, Seq::empty())
}

/// The marks of three upgrades separated by spaces: the icon for each done,
/// two spaces for each not.
pub open spec fn trio(done: Seq<Upgrade>, a: (Upgrade, Seq<char>), b: (Upgrade, Seq<char>), c: (Upgrade, Seq<char>)) -> Seq<char> {
    mark(done, a.0, a.1, "  "@) + " "@ + mark(done, b.0, b.1, "  "@) + " "@ + mark(done, c.0, c.1, "  "@)
}

/// The shield icon.
pub open spec fn shield_icon() -> Seq<char> {
    "\u{1f6e1}\u{fe0f}"@
}

/// The sword icon.
pub open spec fn weapons_icon() -> Seq<char> {
    "\u{1f52a}"@
}

/// The blue circle icon.
pub open spec fn shields_icon() -> Seq<char> {
    "\u{1f535}"@
}

/// The three lines for the standard upgrades: ground armor and weapons,
/// air armor and weapons, shields.
pub open spec fn standard_upgrade_lines(done: Seq<Upgrade>) -> Seq<Seq<char>> {
    seq![
        "Ground: "@ + levels(done, up::PROTOSS_GROUND_ARMORS_LEVEL_1, up::PROTOSS_GROUND_ARMORS_LEVEL_2, up::PROTOSS_GROUND_ARMORS_LEVEL_3, shield_icon())
            + levels(done, up::PROTOSS_GROUND_WEAPONS_LEVEL_1, up::PROTOSS_GROUND_WEAPONS_LEVEL_2, up::PROTOSS_GROUND_WEAPONS_LEVEL_3, weapons_icon()),
        "Air: "@ + levels(done, up::PROTOSS_AIR_ARMORS_LEVEL_1, up::PROTOSS_AIR_ARMORS_LEVEL_2, up::PROTOSS_AIR_ARMORS_LEVEL_3, shield_icon())
            + levels(done, up::PROTOSS_AIR_WEAPONS_LEVEL_1, up::PROTOSS_AIR_WEAPONS_LEVEL_2, up::PROTOSS_AIR_WEAPONS_LEVEL_3, weapons_icon()),
        "Shields: "@ + levels(done, up::PROTOSS_SHIELDS_LEVEL_1, up::PROTOSS_SHIELDS_LEVEL_2, up::PROTOSS_SHIELDS_LEVEL_3, shields_icon()),
    ]
}

/// The four lines of ability upgrades: gateway tech, infantry tech,
/// robotics tech, air tech.
pub open spec fn ability_upgrade_lines(done: Seq<Upgrade>) -> Seq<Seq<char>> {
    seq![
        trio(done, (up::WARP_GATE_RESEARCH, "\u{1f300}"@), (up::PSI_STORM_TECH, "\u{1f329}\u{fe0f}"@), (up::DARK_TEMPLAR_BLINK_UPGRADE, "\u{1f9de}"@)),
        trio(done, (up::CHARGE, "\u{1f45f}"@), (up::BLINK_TECH, "\u{1f441}\u{fe0f}"@), (up::ADEPT_PIERCING_ATTACK, "\u{1f94f}"@)),
        trio(done, (up::GRAVITIC_DRIVE, "\u{1f4a0}"@), (up::OBSERVER_GRAVITIC_BOOSTER, "\u{1f506}"@), (up::EXTENDED_THERMAL_LANCE, "\u{1f321}\u{fe0f}"@)),
        trio(done, (up::ANION_PULSE_CRYSTALS, "\u{1f48e}"@), (up::VOID_RAY_SPEED_UPGRADE, "\u{1f680}"@), (up::TEMPEST_GROUND_ATTACK_UPGRADE, "\u{1f4a5}"@)),
    ]
}

/// Appends the icons of the three levels that are done.
fn push_levels(out: &mut String, done: &Vec<Upgrade>, l1: Upgrade, l2: Upgrade, l3: Upgrade, icon: &str)
    ensures
        final(out)@ == old(out)@ + levels(done@, l1, l2, l3, icon@),
{
    if has_upgrade(done, l1) {
        out.append(icon);
    }
    if has_upgrade(done, l2) {
        out.append(icon);
    }
    if has_upgrade(done, l3) {
        out.append(icon);
    }
    assert(final(out)@ =~= old(out)@ + levels(done@, l1, l2, l3, icon@));
}

/// Appends the mark of an upgrade: its icon if done, two spaces if not.
fn push_mark(out: &mut String, done: &Vec<Upgrade>, u: Upgrade, icon: &str)
    ensures
        final(out)@ == old(out)@ + mark(done@, u, icon@, "  "@),
{
    if has_upgrade(done, u) {
        out.append(icon);
    } else {
        out.append("  ");
    }
}

/// One line of three upgrade marks separated by spaces.
fn trio_line(done: &Vec<Upgrade>, a: Upgrade, ai: &str, b: Upgrade, bi: &str, c: Upgrade, ci: &str) -> (s: String)
    ensures
        s@ == trio(done@, (a, ai@), (b, bi@), (c, ci@)),
{
    let mut s = String::new();
    push_mark(&mut s, done, a, ai);
    s.append(" ");
    push_mark(&mut s, done, b, bi);
    s.append(" ");
    push_mark(&mut s, done, c, ci);
    assert(s@ =~= trio(done@, (a, ai@), (b, bi@), (c, ci@)));
    s
}

/// The standard upgrade lines for the upgrades in `done`.
pub fn get_protoss_standard_upgrades(done: &Vec<Upgrade>) -> (lines: Vec<String>)
    ensures
        lines@.map_values(|l: String| l@) == standard_upgrade_lines(done@),
{
    let shield = "\u{1f6e1}\u{fe0f}";
    let weapons = "\u{1f52a}";
    let blue = "\u{1f535}";
    let mut ground = String::from_str("Ground: ");
    push_levels(&mut ground, done, up::PROTOSS_GROUND_ARMORS_LEVEL_1, up::PROTOSS_GROUND_ARMORS_LEVEL_2, up::PROTOSS_GROUND_ARMORS_LEVEL_3, shield);
    push_levels(&mut ground, done, up::PROTOSS_GROUND_WEAPONS_LEVEL_1, up::PROTOSS_GROUND_WEAPONS_LEVEL_2, up::PROTOSS_GROUND_WEAPONS_LEVEL_3, weapons);
    let mut air = String::from_str("Air: ");
    push_levels(&mut air, done, up::PROTOSS_AIR_ARMORS_LEVEL_1, up::PROTOSS_AIR_ARMORS_LEVEL_2, up::PROTOSS_AIR_ARMORS_LEVEL_3, shield);
    push_levels(&mut air, done, up::PROTOSS_AIR_WEAPONS_LEVEL_1, up::PROTOSS_AIR_WEAPONS_LEVEL_2, up::PROTOSS_AIR_WEAPONS_LEVEL_3, weapons);
    let mut shields = String::from_str("Shields: ");
    push_levels(&mut shields, done, up::PROTOSS_SHIELDS_LEVEL_1, up::PROTOSS_SHIELDS_LEVEL_2, up::PROTOSS_SHIELDS_LEVEL_3, blue);
    let mut lines: Vec<String> = Vec::new();
    lines.push(ground);
    lines.push(air);
    lines.push(shields);
    assert(lines@.map_values(|l: String| l@) =~= standard_upgrade_lines(done@));
    lines
}

/// The ability upgrade lines for the upgrades in `done`.
pub fn get_protoss_ability_upgrades(done: &Vec<Upgrade>) -> (lines: Vec<String>)
    ensures
        lines@.map_values(|l: String| l@) == ability_upgrade_lines(done@),
{
    let mut lines: Vec<String> = Vec::new();
    lines.push(trio_line(done, up::WARP_GATE_RESEARCH, "\u{1f300}", up::PSI_STORM_TECH, "\u{1f329}\u{fe0f}", up::DARK_TEMPLAR_BLINK_UPGRADE, "\u{1f9de}"));
    lines.push(trio_line(done, up::CHARGE, "\u{1f45f}", up::BLINK_TECH, "\u{1f441}\u{fe0f}", up::ADEPT_PIERCING_ATTACK, "\u{1f94f}"));
    lines.push(trio_line(done, up::GRAVITIC_DRIVE, "\u{1f4a0}", up::OBSERVER_GRAVITIC_BOOSTER, "\u{1f506}", up::EXTENDED_THERMAL_LANCE, "\u{1f321}\u{fe0f}"));
    lines.push(trio_line(done, up::ANION_PULSE_CRYSTALS, "\u{1f48e}", up::VOID_RAY_SPEED_UPGRADE, "\u{1f680}", up::TEMPEST_GROUND_ATTACK_UPGRADE, "\u{1f4a5}"));
    assert(lines@.map_values(|l: String| l@) =~= ability_upgrade_lines(done@));
    lines
}

/// The workers that exist: the worker supply less the probes still being
/// trained, at least zero.
pub fn existing_workers(supply_workers: u32, ordered_probes: u32) -> (n: u32)
    ensures
        n == if supply_workers >= ordered_probes { supply_workers - ordered_probes } else { 0 },
{
    supply_workers.saturating_sub(ordered_probes)
}


/// A row of the production table: the structure, what it makes, how many,
/// and the progress text.
pub type ProductionRow = (String, String, String, String);

/// A production row as text values.
pub open spec fn row_view(r: ProductionRow) -> (Seq<char>, Seq<char>, Seq<char>, Seq<char>) {
    (r.0@, r.1@, r.2@, r.3@)
}

/// Whether `a` comes before `b` in the order of their characters' code
/// points (the byte order of their UTF-8 text), a prefix first.
pub open spec fn text_lt(a: Seq<char>, b: Seq<char>) -> bool
    decreases a.len(),
{
    if a.len() == 0 {
        b.len() > 0
    } else if b.len() == 0 {
        false
    } else if a[0] != b[0] {
        (a[0] as u32) < (b[0] as u32)
    } else {
        text_lt(a.drop_first(), b.drop_first())
    }
}

/// Whether row `a` may stand before row `b` when sorted: the rows compared
/// field by field.
pub open spec fn row_le(a: (Seq<char>, Seq<char>, Seq<char>, Seq<char>), b: (Seq<char>, Seq<char>, Seq<char>, Seq<char>)) -> bool {
    if a.0 != b.0 {
        text_lt(a.0, b.0)
    } else if a.1 != b.1 {
        text_lt(a.1, b.1)
    } else if a.2 != b.2 {
        text_lt(a.2, b.2)
    } else {
        a.3 == b.3 || text_lt(a.3, b.3)
    }
}

/// The rows as text values.
pub open spec fn rows_view(rows: Seq<ProductionRow>) -> Seq<(Seq<char>, Seq<char>, Seq<char>, Seq<char>)> {
    rows.map_values(|r: ProductionRow| row_view(r))
}

/// Whether `sorted` holds the rows of `rows`, each as often, in the order
/// of `row_le`.
pub open spec fn sorted_rows_of(
    rows: Seq<(Seq<char>, Seq<char>, Seq<char>, Seq<char>)>,
    sorted: Seq<(Seq<char>, Seq<char>, Seq<char>, Seq<char>)>,
) -> bool {
    &&& sorted.to_multiset() == rows.to_multiset()
    &&& forall|i: int, j: int| 0 <= i < j < sorted.len() ==> row_le(#[trigger] sorted[i], #[trigger] sorted[j])
}

/// No two texts each come before the other.
proof fn lemma_text_lt_asymmetric(a: Seq<char>, b: Seq<char>)
    ensures
        !(text_lt(a, b) && text_lt(b, a)),
    decreases a.len(),
{
    if a.len() > 0 && b.len() > 0 && a[0] == b[0] {
        lemma_text_lt_asymmetric(a.drop_first(), b.drop_first());
    }
}

/// Two rows that may each stand before the other are the same row.
proof fn lemma_row_le_antisymmetric(a: (Seq<char>, Seq<char>, Seq<char>, Seq<char>), b: (Seq<char>, Seq<char>, Seq<char>, Seq<char>))
    requires
        row_le(a, b),
        row_le(b, a),
    ensures
        a == b,
{
    lemma_text_lt_asymmetric(a.0, b.0);
    lemma_text_lt_asymmetric(a.1, b.1);
    lemma_text_lt_asymmetric(a.2, b.2);
    lemma_text_lt_asymmetric(a.3, b.3);
}

/// The rows sorted are fixed by the rows: two sequences that each hold the
/// same rows in sorted order are the same sequence.
pub proof fn lemma_sorted_rows_unique(
    rows: Seq<(Seq<char>, Seq<char>, Seq<char>, Seq<char>)>,
    s1: Seq<(Seq<char>, Seq<char>, Seq<char>, Seq<char>)>,
    s2: Seq<(Seq<char>, Seq<char>, Seq<char>, Seq<char>)>,
)
    requires
        sorted_rows_of(rows, s1),
        sorted_rows_of(rows, s2),
    ensures
        s1 == s2,
    decreases s1.len(),
{
    broadcast use vstd::seq_lib::group_to_multiset_ensures;
    assert(s1.len() == s1.to_multiset().len());
    assert(s2.len() == s2.to_multiset().len());
    if s1.len() == 0 {
        assert(s1 =~= s2);
    } else {
        let n = s1.len() as int;
        let x = s1[n - 1];
        let y = s2[n - 1];
        assert(s2.contains(y));
        assert(s2.to_multiset().count(y) > 0);
        assert(s1.contains(y));
        let j = choose|j: int| 0 <= j < n && s1[j] == y;
        if j < n - 1 {
            assert(row_le(s1[j], s1[n - 1]));
        }
        assert(s1.contains(x));
        assert(s1.to_multiset().count(x) > 0);
        assert(s2.contains(x));
        let k = choose|k: int| 0 <= k < n && s2[k] == x;
        if k < n - 1 {
            assert(row_le(s2[k], s2[n - 1]));
        }
        if x != y {
            lemma_row_le_antisymmetric(x, y);
        }
        let d1 = s1.drop_last();
        let d2 = s2.drop_last();
        assert(s1 =~= d1.push(x));
        assert(s2 =~= d2.push(x));
        assert(d1.push(x).to_multiset() =~= d1.to_multiset().insert(x));
        assert(d2.push(x).to_multiset() =~= d2.to_multiset().insert(x));
        assert(d1.to_multiset() =~= d2.to_multiset()) by {
            broadcast use vstd::multiset::group_multiset_axioms;
            assert forall|a| #[trigger] d1.to_multiset().count(a) == d2.to_multiset().count(a) by {
                assert(d1.to_multiset().insert(x).count(a) == d2.to_multiset().insert(x).count(a));
            }
        }
        assert forall|i: int, l: int| 0 <= i < l < d1.len() implies row_le(#[trigger] d1[i], #[trigger] d1[l]) by {
            assert(row_le(s1[i], s1[l]));
        }
        assert forall|i: int, l: int| 0 <= i < l < d2.len() implies row_le(#[trigger] d2[i], #[trigger] d2[l]) by {
            assert(row_le(s2[i], s2[l]));
        }
        lemma_sorted_rows_unique(d1, d1, d2);
        assert(s1 =~= s2);
    }
}

/// Calls `slice::sort` on the rows. Claimed: the result holds the same
/// rows, each as often, in the order of the rows' `Ord` (tuples compare
/// field by field, texts by their bytes).
#[verifier::external_body]
fn sort_rows(rows: &mut Vec<ProductionRow>)
    ensures
        sorted_rows_of(rows_view(old(rows)@), rows_view(final(rows)@)),
{
    rows.sort();
}

/// The line for a row under its structure's name.
pub open spec fn product_line(r: (Seq<char>, Seq<char>, Seq<char>, Seq<char>)) -> Seq<char> {
    " - "@ + r.1 + "["@ + r.2 + "]"@ + r.3
}

/// The lines for the rows taken from the last one back, under the structure
/// named `active`: a structure's name whenever it changes, then a line for
/// each row.
pub open spec fn lines_from_end(rows: Seq<(Seq<char>, Seq<char>, Seq<char>, Seq<char>)>, active: Seq<char>) -> Seq<Seq<char>>
    decreases rows.len(),
{
    if rows.len() == 0 {
        Seq::empty()
    } else {
        let r = rows.last();
        let head = if r.0 != active { seq![r.0] } else { Seq::<Seq<char>>::empty() };
        head.push(product_line(r)) + lines_from_end(rows.drop_last(), r.0)
    }
}

/// The production table's lines: the rows sorted, then read from the last
/// one back, each structure's name before its rows. (The sorted rows are
/// fixed by the rows: see `lemma_sorted_rows_unique`.)
pub fn format_production(producing: &mut Vec<ProductionRow>) -> (out: Vec<String>)
    ensures
        exists|sorted: Seq<(Seq<char>, Seq<char>, Seq<char>, Seq<char>)>|
            #[trigger] sorted_rows_of(rows_view(old(producing)@), sorted)
            && out@.map_values(|l: String| l@) == lines_from_end(sorted, Seq::empty()),
        final(producing)@.len() == 0,
{
    let mut out: Vec<String> = Vec::new();
    sort_rows(producing);
    let ghost all = producing@.map_values(|r: ProductionRow| row_view(r));
    let mut active_structure = String::new();
    while producing.len() > 0
        invariant
            out@.map_values(|l: String| l@) + lines_from_end(producing@.map_values(|r: ProductionRow| row_view(r)), active_structure@)
                == lines_from_end(all, Seq::empty()),
        decreases producing@.len(),
    {
        let ghost before = producing@.map_values(|r: ProductionRow| row_view(r));
        let ghost out_before = out@.map_values(|l: String| l@);
        let (name, product, count, progress) = producing.pop().unwrap();
        proof {
            assert(producing@.map_values(|r: ProductionRow| row_view(r)) =~= before.drop_last());
            assert(before.last() == (name@, product@, count@, progress@));
        }
        let ghost active_before = active_structure@;
        let changed = name != active_structure;
        let ghost head = if changed { seq![name@] } else { Seq::<Seq<char>>::empty() };
        if changed {
            active_structure = name.clone();
            out.push(name);
        } else {
            proof { assert(active_structure@ == name@); }
        }
        let mut line = String::from_str(" - ");
        line.append(product.as_str());
        line.append("[");
        line.append(count.as_str());
        line.append("]");
        line.append(progress.as_str());
        out.push(line);
        proof {
            let r = before.last();
            let rest = before.drop_last();
            assert(lines_from_end(before, active_before) == head.push(product_line(r)) + lines_from_end(rest, r.0));
            assert(out@.map_values(|l: String| l@) =~= out_before + head.push(product_line(r)));
            assert(out_before + head.push(product_line(r)) + lines_from_end(rest, r.0)
                =~= out_before + (head.push(product_line(r)) + lines_from_end(rest, r.0)));
        }
    }
    proof {
        assert(producing@.map_values(|r: ProductionRow| row_view(r)) =~= Seq::<(Seq<char>, Seq<char>, Seq<char>, Seq<char>)>::empty());
        assert(lines_from_end(Seq::<(Seq<char>, Seq<char>, Seq<char>, Seq<char>)>::empty(), active_structure@) =~= Seq::<Seq<char>>::empty());
        assert(out@.map_values(|l: String| l@) + Seq::<Seq<char>>::empty() =~= out@.map_values(|l: String| l@));
        assert(sorted_rows_of(rows_view(old(producing)@), all));
    }
    out
}

} // verus!
