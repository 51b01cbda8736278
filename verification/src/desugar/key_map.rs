//! Grouping attributed lines by key, broadcasting `[GroupAbbrev]` lines to
//! each member part, and checking fixed-schema parts' line capacity.

use super::attribution::keyed_fit;
use super::lines::{
    clone_opt_string, first_error, keyed_view, lines_view, opt_err_view, KeyedLine, KeyedView,
    LineView, ResolvedGroup, SourceLine,
};
use crate::ast::parsed::{kind_roles, PartDecl};
use crate::error::{error_view, ErrorView, RecoverableError, RecoverableErrorKind, Span};
use crate::text::{decimal, push_decimal};
use vstd::prelude::*;

verus! {

/// Keyed lines grouped by key, keys in first-occurrence order.
pub type KeyMap = Vec<(String, Vec<SourceLine>)>;

pub type MapView = Seq<(Seq<char>, Seq<LineView>)>;

pub open spec fn map_view(m: Seq<(String, Vec<SourceLine>)>) -> MapView {
    m.map_values(|e: (String, Vec<SourceLine>)| (e.0@, lines_view(e.1@)))
}

pub open spec fn is_first_key(m: MapView, k: Seq<char>, i: int) -> bool {
    &&& 0 <= i < m.len()
    &&& m[i].0 == k
    &&& forall|j: int| 0 <= j < i ==> m[j].0 != k
}

/// Index of the first entry of `m` keyed `k`.
pub open spec fn find_key(m: MapView, k: Seq<char>) -> Option<int> {
    if exists|i: int| is_first_key(m, k, i) {
        Some(choose|i: int| is_first_key(m, k, i))
    } else {
        None
    }
}

pub proof fn lemma_find_key_unique(m: MapView, k: Seq<char>, i: int)
    requires
        is_first_key(m, k, i),
    ensures
        find_key(m, k) == Some(i),
{
    let j = choose|j: int| is_first_key(m, k, j);
    if j < i {
        assert(m[j].0 != k);
    }
    if i < j {
        assert(m[i].0 != k);
    }
}

/// Index of the first entry keyed `key`.
pub fn find_entry(map: &KeyMap, key: &String) -> (r: Option<usize>)
    ensures
        r is Some ==> find_key(map_view(map@), key@) == Some(r->0 as int),
        r is None ==> find_key(map_view(map@), key@) is None,
{
    let mut j: usize = 0;
    while j < map.len()
        invariant
            j <= map@.len(),
            forall|t: int| 0 <= t < j ==> map_view(map@)[t].0 != key@,
        decreases map.len() - j,
    {
        if map[j].0 == *key {
            proof {
                lemma_find_key_unique(map_view(map@), key@, j as int);
            }
            return Some(j);
        }
        j = j + 1;
    }
    None
}

/// The slot line an attributed line becomes, before any group tagging.
pub open spec fn entry_line(l: KeyedView) -> LineView {
    LineView {
        content: l.content,
        offset: l.content_offset,
        group: None,
        is_implicit_fill: false,
        is_positional: l.is_positional,
    }
}

pub open spec fn group_step(m: MapView, l: KeyedView) -> MapView {
    match find_key(m, l.key) {
        Some(i) => m.update(i, (m[i].0, m[i].1.push(entry_line(l)))),
        None => m.push((l.key, seq![entry_line(l)])),
    }
}

/// Lines grouped by key, in file order within each key.
pub open spec fn grouped(lines: Seq<KeyedView>) -> MapView
    decreases lines.len(),
{
    if lines.len() == 0 {
        Seq::empty()
    } else {
        group_step(grouped(lines.drop_last()), lines.last())
    }
}

/// Every line of the map fits under `base` with room for a one-byte span.
pub open spec fn map_fit(m: MapView, base: usize) -> bool {
    forall|i: int, j: int|
        0 <= i < m.len() && 0 <= j < m[i].1.len() ==> base + (#[trigger] m[i].1[j]).offset + 1
            <= usize::MAX
}

fn source_line_of(line: &KeyedLine) -> (s: SourceLine)
    ensures
        s@ == entry_line(line@),
{
    SourceLine {
        content: line.content.clone(),
        offset: line.content_offset,
        group: None,
        is_implicit_fill: false,
        is_positional: line.is_positional,
    }
}

/// Groups keyed lines that share a key, in file order: a key's first line
/// fills its first slot, its second line its second slot, and so on.
pub fn group_by_key(lines: &Vec<KeyedLine>, base: usize) -> (map: KeyMap)
    requires
        keyed_fit(keyed_view(lines@), base),
    ensures
        map_view(map@) == grouped(keyed_view(lines@)),
        map_fit(map_view(map@), base),
{
    let mut map: KeyMap = Vec::new();
    let n = lines.len();
    let ghost ks = keyed_view(lines@);
    for i in 0..n
        invariant
            n == lines@.len(),
            ks == keyed_view(lines@),
            keyed_fit(ks, base),
            map_view(map@) == grouped(ks.take(i as int)),
            map_fit(map_view(map@), base),
    {
        assert(ks.take(i + 1).drop_last() == ks.take(i as int));
        assert(ks.take(i + 1).last() == ks[i as int]);
        let line = &lines[i];
        let entry = source_line_of(line);
        let ghost before = map_view(map@);
        assert(base + ks[i as int].content_offset + 1 <= usize::MAX);
        match find_entry(&map, &line.key) {
            Some(idx) => {
                let ghost old_map = map@;
                let ghost old_lines = map@[idx as int].1@;
                map[idx].1.push(entry);
                assert(lines_view(map@[idx as int].1@) =~= lines_view(old_lines).push(entry@));
                assert(map_view(map@) =~= before.update(
                    idx as int,
                    (before[idx as int].0, before[idx as int].1.push(entry@)),
                ));
            },
            None => {
                let mut v: Vec<SourceLine> = Vec::new();
                v.push(entry);
                map.push((line.key.clone(), v));
                assert(lines_view(v@) == seq![entry@]);
                assert(map_view(map@) == before.push((line.key@, seq![entry@])));
            },
        }
    }
    assert(ks.take(n as int) == ks);
    map
}

pub open spec fn is_first_group(groups: Seq<ResolvedGroup>, g: Seq<char>, i: int) -> bool {
    &&& 0 <= i < groups.len()
    &&& groups[i].abbreviation@ == g
    &&& forall|j: int| 0 <= j < i ==> groups[j].abbreviation@ != g
}

/// Index of the first resolved group named `g`.
pub open spec fn find_group(groups: Seq<ResolvedGroup>, g: Seq<char>) -> Option<int> {
    if exists|i: int| is_first_group(groups, g, i) {
        Some(choose|i: int| is_first_group(groups, g, i))
    } else {
        None
    }
}

pub proof fn lemma_find_group_unique(groups: Seq<ResolvedGroup>, g: Seq<char>, i: int)
    requires
        is_first_group(groups, g, i),
    ensures
        find_group(groups, g) == Some(i),
{
    let j = choose|j: int| is_first_group(groups, g, j);
    if j < i {
        assert(groups[j].abbreviation@ != g);
    }
    if i < j {
        assert(groups[i].abbreviation@ != g);
    }
}

pub fn find_resolved_group(groups: &[ResolvedGroup], g: &String) -> (r: Option<usize>)
    ensures
        r is Some ==> find_group(groups@, g@) == Some(r->0 as int),
        r is None ==> find_group(groups@, g@) is None,
        r is None ==> forall|i: int| 0 <= i < groups@.len() ==> groups@[i].abbreviation@ != g@,
        r matches Some(i) ==> i < groups@.len() && groups@[i as int].abbreviation@ == g@,
{
    let mut j: usize = 0;
    while j < groups.len()
        invariant
            j <= groups@.len(),
            forall|t: int| 0 <= t < j ==> groups@[t].abbreviation@ != g@,
        decreases groups.len() - j,
    {
        if groups[j].abbreviation == *g {
            proof {
                lemma_find_group_unique(groups@, g@, j as int);
            }
            return Some(j);
        }
        j = j + 1;
    }
    None
}

/// A group's broadcast line as it lands in a member's slot.
pub open spec fn tagged(c: LineView, g: Seq<char>) -> LineView {
    LineView { group: Some(g), is_implicit_fill: false, ..c }
}

pub open spec fn tag_lines(contents: Seq<LineView>, g: Seq<char>) -> Seq<LineView> {
    contents.map_values(|c: LineView| tagged(c, g))
}

/// `lines` extended with the broadcast `contents` past the slots the member
/// already filled with its own lines (its own lines win).
pub open spec fn fill_from(lines: Seq<LineView>, contents: Seq<LineView>, g: Seq<char>) -> Seq<LineView> {
    if lines.len() >= contents.len() {
        lines
    } else {
        lines + tag_lines(contents.skip(lines.len() as int), g)
    }
}

pub open spec fn member_step(m: MapView, member: Seq<char>, contents: Seq<LineView>, g: Seq<char>) -> MapView {
    let m1 = if find_key(m, member) is None {
        m.push((member, Seq::empty()))
    } else {
        m
    };
    let i = find_key(m1, member)->0;
    m1.update(i, (m1[i].0, fill_from(m1[i].1, contents, g)))
}

pub open spec fn members_step(
    m: MapView,
    members: Seq<Seq<char>>,
    contents: Seq<LineView>,
    g: Seq<char>,
) -> MapView
    decreases members.len(),
{
    if members.len() == 0 {
        m
    } else {
        member_step(members_step(m, members.drop_last(), contents, g), members.last(), contents, g)
    }
}

pub open spec fn member_names(g: ResolvedGroup) -> Seq<Seq<char>> {
    g.members@.map_values(|s: String| s@)
}

pub open spec fn broadcast_step(m: MapView, entry: (Seq<char>, Seq<LineView>), groups: Seq<ResolvedGroup>) -> MapView {
    match find_group(groups, entry.0) {
        Some(gi) => members_step(m, member_names(groups[gi]), entry.1, entry.0),
        None => m,
    }
}

/// Every group broadcast distributed to its members, in group-map order.
pub open spec fn merged(m: MapView, group_map: MapView, groups: Seq<ResolvedGroup>) -> MapView
    decreases group_map.len(),
{
    if group_map.len() == 0 {
        m
    } else {
        broadcast_step(merged(m, group_map.drop_last(), groups), group_map.last(), groups)
    }
}

fn tag_line(c: &SourceLine, g: &String) -> (s: SourceLine)
    ensures
        s@ == tagged(c@, g@),
{
    SourceLine {
        content: c.content.clone(),
        offset: c.offset,
        group: Some(g.clone()),
        is_implicit_fill: false,
        is_positional: c.is_positional,
    }
}

proof fn lemma_find_key_after_push(m: MapView, k: Seq<char>)
    requires
        find_key(m, k) is None,
    ensures
        find_key(m.push((k, Seq::empty())), k) == Some(m.len() as int),
{
    let m1 = m.push((k, Seq::<LineView>::empty()));
    assert forall|j: int| 0 <= j < m.len() implies m1[j].0 != k by {
        if m1[j].0 == k {
            assert(m[j].0 == k);
            lemma_first_key_exists(m, k, j);
        }
    }
    lemma_find_key_unique(m1, k, m.len() as int);
}

pub proof fn lemma_first_key_exists(m: MapView, k: Seq<char>, j: int)
    requires
        0 <= j < m.len(),
        m[j].0 == k,
    ensures
        find_key(m, k) is Some,
    decreases j,
{
    if exists|t: int| 0 <= t < j && m[t].0 == k {
        let t = choose|t: int| 0 <= t < j && m[t].0 == k;
        lemma_first_key_exists(m, k, t);
    } else {
        assert(is_first_key(m, k, j));
    }
}


fn fill_member(
    key_map: &mut KeyMap,
    idx: usize,
    contents: &Vec<SourceLine>,
    g: &String,
    Ghost(base): Ghost<usize>,
)
    requires
        idx < old(key_map)@.len(),
        map_fit(map_view(old(key_map)@), base),
        forall|j: int| 0 <= j < contents@.len() ==> base + (#[trigger] contents@[j]).offset + 1 <= usize::MAX,
    ensures
        map_view(final(key_map)@) == map_view(old(key_map)@).update(
            idx as int,
            (
                map_view(old(key_map)@)[idx as int].0,
                fill_from(map_view(old(key_map)@)[idx as int].1, lines_view(contents@), g@),
            ),
        ),
        map_fit(map_view(final(key_map)@), base),
{
    let ghost m0 = map_view(key_map@);
    let ghost l0 = m0[idx as int].1;
    let ghost cv = lines_view(contents@);
    let len0 = key_map[idx].1.len();
    let n = contents.len();
    for index in 0..n
        invariant
            n == contents@.len(),
            cv == lines_view(contents@),
            idx < key_map@.len(),
            key_map@.len() == m0.len(),
            len0 == l0.len(),
            forall|j: int| 0 <= j < contents@.len() ==> base + (#[trigger] contents@[j]).offset + 1 <= usize::MAX,
            forall|t: int| 0 <= t < m0.len() && t != idx ==> map_view(key_map@)[t] == m0[t],
            map_view(key_map@)[idx as int].0 == m0[idx as int].0,
            key_map@[idx as int].1@.len() == if index <= len0 {
                len0 as int
            } else {
                index as int
            },
            lines_view(key_map@[idx as int].1@) == if index <= len0 {
                l0
            } else {
                l0 + tag_lines(cv.subrange(len0 as int, index as int), g@)
            },
            map_fit(map_view(key_map@), base),
    {
        if index == key_map[idx].1.len() {
            let line = tag_line(&contents[index], g);
            let ghost before = lines_view(key_map@[idx as int].1@);
            let ghost mb = map_view(key_map@);
            key_map[idx].1.push(line);
            assert(lines_view(key_map@[idx as int].1@) =~= before.push(line@));
            assert(tag_lines(cv.subrange(len0 as int, index + 1), g@) =~= tag_lines(
                cv.subrange(len0 as int, index as int),
                g@,
            ).push(tagged(cv[index as int], g@)));
            assert(map_view(key_map@) =~= mb.update(
                idx as int,
                (mb[idx as int].0, before.push(line@)),
            ));
            assert(base + contents@[index as int].offset + 1 <= usize::MAX);
            assert forall|a: int, b: int|
                0 <= a < map_view(key_map@).len() && 0 <= b < map_view(key_map@)[a].1.len() implies base
                + (#[trigger] map_view(key_map@)[a].1[b]).offset + 1 <= usize::MAX by {
                if a != idx || b < before.len() {
                    assert(map_view(key_map@)[a].1[b] == mb[a].1[b]);
                }
            }
        }
    }
    let ghost fin = lines_view(key_map@[idx as int].1@);
    if len0 < n {
        assert(cv.subrange(len0 as int, n as int) == cv.skip(len0 as int));
    }
    assert(fin == fill_from(l0, cv, g@));
    assert(map_view(key_map@) =~= m0.update(idx as int, (m0[idx as int].0, fill_from(l0, cv, g@))));
}

/// Fills each group broadcast's members with its lines, one line per slot,
/// skipping any slot a member already has its own line for (direct lines
/// win). Lines filled this way carry the group's abbreviation.
pub fn merge_group_broadcasts(
    key_map: &mut KeyMap,
    group_map: &KeyMap,
    resolved_groups: &[ResolvedGroup],
    Ghost(base): Ghost<usize>,
)
    requires
        map_fit(map_view(old(key_map)@), base),
        map_fit(map_view(group_map@), base),
    ensures
        map_view(final(key_map)@) == merged(
            map_view(old(key_map)@),
            map_view(group_map@),
            resolved_groups@,
        ),
        map_fit(map_view(final(key_map)@), base),
{
    let ghost m0 = map_view(key_map@);
    let ghost gm = map_view(group_map@);
    let n = group_map.len();
    for gi in 0..n
        invariant
            n == group_map@.len(),
            gm == map_view(group_map@),
            map_fit(gm, base),
            map_view(key_map@) == merged(m0, gm.take(gi as int), resolved_groups@),
            map_fit(map_view(key_map@), base),
    {
        assert(gm.take(gi + 1).drop_last() == gm.take(gi as int));
        assert(gm.take(gi + 1).last() == gm[gi as int]);
        let group_abbrev = &group_map[gi].0;
        let contents = &group_map[gi].1;
        assert(lines_view(contents@) == gm[gi as int].1);
        assert forall|j: int| 0 <= j < contents@.len() implies base + (#[trigger] contents@[j]).offset
            + 1 <= usize::MAX by {
            assert(gm[gi as int].1[j] == contents@[j]@);
        }
        match find_resolved_group(resolved_groups, group_abbrev) {
            None => {},
            Some(ri) => {
                let resolved = &resolved_groups[ri];
                let ghost names = member_names(resolved_groups@[ri as int]);
                let ghost start = map_view(key_map@);
                let m = resolved.members.len();
                for mi in 0..m
                    invariant
                        m == resolved.members@.len(),
                        names == resolved.members@.map_values(|s: String| s@),
                        forall|j: int| 0 <= j < contents@.len() ==> base + (#[trigger] contents@[j]).offset + 1 <= usize::MAX,
                        map_view(key_map@) == members_step(
                            start,
                            names.take(mi as int),
                            lines_view(contents@),
                            group_abbrev@,
                        ),
                        map_fit(map_view(key_map@), base),
                {
                    assert(names.take(mi + 1).drop_last() == names.take(mi as int));
                    assert(names.take(mi + 1).last() == names[mi as int]);
                    let member = &resolved.members[mi];
                    let ghost before = map_view(key_map@);
                    let idx = match find_entry(key_map, member) {
                        Some(idx) => idx,
                        None => {
                            proof {
                                lemma_find_key_after_push(before, member@);
                            }
                            key_map.push((member.clone(), Vec::new()));
                            assert(lines_view(key_map@[key_map@.len() - 1].1@) =~= Seq::empty());
                            assert(map_view(key_map@) =~= before.push((member@, Seq::empty())));
                            key_map.len() - 1
                        },
                    };
                    fill_member(key_map, idx, contents, group_abbrev, Ghost(base));
                }
                assert(names.take(m as int) == names);
            },
        }
    }
    assert(gm.take(n as int) == gm);
}

pub open spec fn is_first_decl(decls: Seq<PartDecl>, k: Seq<char>, i: int) -> bool {
    &&& 0 <= i < decls.len()
    &&& decls[i].abbreviation@ == k
    &&& forall|j: int| 0 <= j < i ==> decls[j].abbreviation@ != k
}

/// Index of the first declaration abbreviated `k`.
pub open spec fn find_decl(decls: Seq<PartDecl>, k: Seq<char>) -> Option<int> {
    if exists|i: int| is_first_decl(decls, k, i) {
        Some(choose|i: int| is_first_decl(decls, k, i))
    } else {
        None
    }
}

pub proof fn lemma_find_decl_unique(decls: Seq<PartDecl>, k: Seq<char>, i: int)
    requires
        is_first_decl(decls, k, i),
    ensures
        find_decl(decls, k) == Some(i),
{
    let j = choose|j: int| is_first_decl(decls, k, j);
    if j < i {
        assert(decls[j].abbreviation@ != k);
    }
    if i < j {
        assert(decls[i].abbreviation@ != k);
    }
}

pub fn find_declaration(declarations: &[PartDecl], k: &String) -> (r: Option<usize>)
    ensures
        r is Some ==> find_decl(declarations@, k@) == Some(r->0 as int),
        r is None ==> find_decl(declarations@, k@) is None,
        r is None ==> forall|i: int| 0 <= i < declarations@.len() ==> declarations@[i].abbreviation@ != k@,
{
    let mut j: usize = 0;
    while j < declarations.len()
        invariant
            j <= declarations@.len(),
            forall|t: int| 0 <= t < j ==> declarations@[t].abbreviation@ != k@,
        decreases declarations.len() - j,
    {
        if declarations[j].abbreviation == *k {
            proof {
                lemma_find_decl_unique(declarations@, k@, j as int);
            }
            return Some(j);
        }
        j = j + 1;
    }
    None
}

/// The lines of `lines` that were written with a literal `[Abbrev]` prefix.
pub open spec fn non_positional(lines: Seq<LineView>) -> Seq<LineView>
    decreases lines.len(),
{
    if lines.len() == 0 {
        Seq::empty()
    } else if lines.last().is_positional {
        non_positional(lines.drop_last())
    } else {
        non_positional(lines.drop_last()).push(lines.last())
    }
}

pub open spec fn capacity_message(abbrev: Seq<char>, count: nat, slots: nat) -> Seq<char> {
    "part ["@ + abbrev + "] has "@ + decimal(count) + " lines but only "@ + decimal(slots)
        + " slot(s)"@
}

pub open spec fn capacity_step(
    err: Option<ErrorView>,
    entry: (Seq<char>, Seq<LineView>),
    decls: Seq<PartDecl>,
    base: usize,
) -> Option<ErrorView> {
    match find_decl(decls, entry.0) {
        Some(di) => {
            let np = non_positional(entry.1);
            let slots = kind_roles(decls[di].kind).len();
            if np.len() > slots {
                first_error(
                    err,
                    error_view(
                        RecoverableErrorKind::General,
                        Span {
                            start: (base + np[slots as int].offset) as usize,
                            end: (base + np[slots as int].offset + 1) as usize,
                        },
                        capacity_message(entry.0, np.len(), slots),
                    ),
                )
            } else {
                err
            }
        },
        None => err,
    }
}

/// The first capacity error over the map: a fixed-schema part with more
/// `[Abbrev]`-prefixed lines than slots.
pub open spec fn capacity_error(
    m: MapView,
    decls: Seq<PartDecl>,
    base: usize,
    err0: Option<ErrorView>,
) -> Option<ErrorView>
    decreases m.len(),
{
    if m.len() == 0 {
        err0
    } else {
        capacity_step(capacity_error(m.drop_last(), decls, base, err0), m.last(), decls, base)
    }
}

fn capacity_text(abbrev: &String, count: usize, slots: usize) -> (s: String)
    ensures
        s@ == capacity_message(abbrev@, count as nat, slots as nat),
{
    let mut s = String::from_str("part [");
    s.append(abbrev.as_str());
    s.append("] has ");
    push_decimal(&mut s, count);
    s.append(" lines but only ");
    push_decimal(&mut s, slots);
    s.append(" slot(s)");
    s
}

/// Reports (first error wins) any part with more `[Abbrev]`-prefixed lines
/// than its kind has slots; positionally attached lines do not count.
pub fn check_capacity(
    key_map: &KeyMap,
    declarations: &[PartDecl],
    base: usize,
    recoverable_error: &mut Option<RecoverableError>,
)
    requires
        map_fit(map_view(key_map@), base),
    ensures
        opt_err_view(*final(recoverable_error)) == capacity_error(
            map_view(key_map@),
            declarations@,
            base,
            opt_err_view(*old(recoverable_error)),
        ),
{
    let ghost m = map_view(key_map@);
    let ghost e0 = opt_err_view(*recoverable_error);
    let n = key_map.len();
    for i in 0..n
        invariant
            n == key_map@.len(),
            m == map_view(key_map@),
            map_fit(m, base),
            opt_err_view(*recoverable_error) == capacity_error(m.take(i as int), declarations@, base, e0),
    {
        assert(m.take(i + 1).drop_last() == m.take(i as int));
        assert(m.take(i + 1).last() == m[i as int]);
        let abbrev = &key_map[i].0;
        let lines = &key_map[i].1;
        let ghost lv = m[i as int].1;
        assert(lv == lines_view(lines@));
        if let Some(di) = find_declaration(declarations, abbrev) {
            let slot_count = declarations[di].score_line_roles().len();
            let mut count: usize = 0;
            let mut excess: Option<usize> = None;
            for j in 0..lines.len()
                invariant
                    lv == lines_view(lines@),
                    count == non_positional(lv.take(j as int)).len(),
                    count <= j,
                    excess is None <==> count <= slot_count,
                    excess matches Some(x) ==> x == non_positional(lv.take(j as int))[slot_count as int].offset,
                    excess matches Some(x) ==> base + x + 1 <= usize::MAX,
                    map_fit(m, base),
                    i < m.len(),
                    m[i as int].1 == lv,
                    lv.len() == lines@.len(),
            {
                assert(base + m[i as int].1[j as int].offset + 1 <= usize::MAX);
                assert(lv.take(j + 1).drop_last() == lv.take(j as int));
                assert(lv.take(j + 1).last() == lv[j as int]);
                if !lines[j].is_positional {
                    if count == slot_count {
                        excess = Some(lines[j].offset);
                    }
                    count = count + 1;
                }
            }
            assert(lv.take(lines@.len() as int) == lv);
            if let Some(offset) = excess {
                if recoverable_error.is_none() {
                    let message = capacity_text(abbrev, count, slot_count);
                    *recoverable_error = Some(
                        RecoverableError::general(Span::new(base + offset, base + offset + 1), message),
                    );
                }
            }
        }
    }
    assert(m.take(n as int) == m);
}


pub open spec fn is_decl_key(decls: Seq<PartDecl>, k: Seq<char>) -> bool {
    exists|i: int| 0 <= i < decls.len() && decls[i].abbreviation@ == k
}

pub open spec fn is_group_key(groups: Seq<ResolvedGroup>, k: Seq<char>) -> bool {
    exists|i: int| 0 <= i < groups.len() && groups[i].abbreviation@ == k
}

/// The error reported for a line whose key names no part and no group.
pub open spec fn unknown_key_error(l: KeyedView) -> ErrorView {
    error_view(
        RecoverableErrorKind::PartKeyUnknown,
        l.key_prefix_span,
        crate::error::unknown_key_message(l.key),
    )
}

/// Attributed lines split into part lines and group lines; lines under an
/// unknown key are dropped, the first of them reported.
pub struct Split {
    pub part: Seq<KeyedView>,
    pub group: Seq<KeyedView>,
    pub error: Option<ErrorView>,
}

pub open spec fn split_keyed(
    keyed: Seq<KeyedView>,
    decls: Seq<PartDecl>,
    groups: Seq<ResolvedGroup>,
    err0: Option<ErrorView>,
) -> Split
    decreases keyed.len(),
{
    if keyed.len() == 0 {
        Split { part: Seq::empty(), group: Seq::empty(), error: err0 }
    } else {
        let s = split_keyed(keyed.drop_last(), decls, groups, err0);
        let l = keyed.last();
        if is_decl_key(decls, l.key) {
            Split { part: s.part.push(l), ..s }
        } else if is_group_key(groups, l.key) {
            Split { group: s.group.push(l), ..s }
        } else {
            Split { error: first_error(s.error, unknown_key_error(l)), ..s }
        }
    }
}

fn is_group_abbreviation(groups: &[ResolvedGroup], k: &String) -> (b: bool)
    ensures
        b == is_group_key(groups@, k@),
{
    find_resolved_group(groups, k).is_some()
}

fn copy_keyed(l: &KeyedLine) -> (r: KeyedLine)
    ensures
        r@ == l@,
{
    KeyedLine {
        key: l.key.clone(),
        content: l.content.clone(),
        content_offset: l.content_offset,
        key_prefix_span: l.key_prefix_span,
        key_span: l.key_span,
        is_positional: l.is_positional,
    }
}

proof fn lemma_keyed_fit_sub(ks: Seq<KeyedView>, sub: Seq<KeyedView>, base: usize)
    requires
        keyed_fit(ks, base),
        forall|i: int| 0 <= i < sub.len() ==> exists|j: int| 0 <= j < ks.len() && ks[j] == #[trigger] sub[i],
    ensures
        keyed_fit(sub, base),
{
    assert forall|i: int| 0 <= i < sub.len() implies base + #[trigger] sub[i].content_offset + 1
        <= usize::MAX by {
        let j = choose|j: int| 0 <= j < ks.len() && ks[j] == sub[i];
        assert(base + ks[j].content_offset + 1 <= usize::MAX);
    }
}

/// Splits attributed lines into part lines and group lines, groups each by
/// key, broadcasts group lines to members, and checks part capacity.
pub fn filter_keyed_into_key_map(
    keyed: &Vec<KeyedLine>,
    declarations: &[PartDecl],
    resolved_groups: &[ResolvedGroup],
    base: usize,
    recoverable_error: &mut Option<RecoverableError>,
) -> (key_map: KeyMap)
    requires
        keyed_fit(keyed_view(keyed@), base),
    ensures
        ({
            let s = split_keyed(
                keyed_view(keyed@),
                declarations@,
                resolved_groups@,
                opt_err_view(*old(recoverable_error)),
            );
            &&& map_view(key_map@) == merged(grouped(s.part), grouped(s.group), resolved_groups@)
            &&& opt_err_view(*final(recoverable_error)) == capacity_error(
                map_view(key_map@),
                declarations@,
                base,
                s.error,
            )
        }),
        map_fit(map_view(key_map@), base),
{
    let ghost ks = keyed_view(keyed@);
    let ghost e0 = opt_err_view(*recoverable_error);
    let mut part_keyed: Vec<KeyedLine> = Vec::new();
    let mut group_keyed: Vec<KeyedLine> = Vec::new();
    let n = keyed.len();
    for i in 0..n
        invariant
            n == keyed@.len(),
            ks == keyed_view(keyed@),
            keyed_fit(ks, base),
            ({
                let s = split_keyed(ks.take(i as int), declarations@, resolved_groups@, e0);
                &&& keyed_view(part_keyed@) == s.part
                &&& keyed_view(group_keyed@) == s.group
                &&& opt_err_view(*recoverable_error) == s.error
            }),
            forall|a: int| 0 <= a < part_keyed@.len() ==> exists|j: int| 0 <= j < ks.len() && ks[j] == #[trigger] keyed_view(part_keyed@)[a],
            forall|a: int| 0 <= a < group_keyed@.len() ==> exists|j: int| 0 <= j < ks.len() && ks[j] == #[trigger] keyed_view(group_keyed@)[a],
    {
        assert(ks.take(i + 1).drop_last() == ks.take(i as int));
        assert(ks.take(i + 1).last() == ks[i as int]);
        let line = &keyed[i];
        let is_part = match find_declaration(declarations, &line.key) {
            Some(_) => true,
            None => false,
        };
        assert(is_part == is_decl_key(declarations@, ks[i as int].key)) by {
            if is_decl_key(declarations@, ks[i as int].key) {
                let w = choose|w: int| 0 <= w < declarations@.len() && declarations@[w].abbreviation@ == ks[i as int].key;
                lemma_first_decl_exists(declarations@, ks[i as int].key, w);
            }
        }
        if is_part {
            let ghost before = part_keyed@;
            part_keyed.push(copy_keyed(line));
            assert(keyed_view(part_keyed@) =~= keyed_view(before).push(ks[i as int]));
            assert(keyed_view(part_keyed@)[part_keyed@.len() - 1] == ks[i as int]);
        } else if is_group_abbreviation(resolved_groups, &line.key) {
            let ghost before = group_keyed@;
            group_keyed.push(copy_keyed(line));
            assert(keyed_view(group_keyed@) =~= keyed_view(before).push(ks[i as int]));
            assert(keyed_view(group_keyed@)[group_keyed@.len() - 1] == ks[i as int]);
        } else {
            if recoverable_error.is_none() {
                *recoverable_error = Some(
                    RecoverableError::part_key_unknown(line.key_prefix_span, line.key.as_str()),
                );
            }
        }
    }
    assert(ks.take(n as int) == ks);
    proof {
        lemma_keyed_fit_sub(ks, keyed_view(part_keyed@), base);
        lemma_keyed_fit_sub(ks, keyed_view(group_keyed@), base);
    }
    let mut key_map = group_by_key(&part_keyed, base);
    let group_map = group_by_key(&group_keyed, base);
    merge_group_broadcasts(&mut key_map, &group_map, resolved_groups, Ghost(base));
    check_capacity(&key_map, declarations, base, recoverable_error);
    key_map
}

pub proof fn lemma_first_decl_exists(decls: Seq<PartDecl>, k: Seq<char>, j: int)
    requires
        0 <= j < decls.len(),
        decls[j].abbreviation@ == k,
    ensures
        find_decl(decls, k) is Some,
    decreases j,
{
    if exists|t: int| 0 <= t < j && decls[t].abbreviation@ == k {
        let t = choose|t: int| 0 <= t < j && decls[t].abbreviation@ == k;
        lemma_first_decl_exists(decls, k, t);
    } else {
        assert(is_first_decl(decls, k, j));
    }
}

} // verus!
