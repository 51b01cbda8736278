//! Resolution of each declared part's lines for one measure group: its own
//! keyed lines first, then its `follow[X]` target's lines, then implicit
//! fill (a rest per beat, or a blank lyric), slot by slot.

use super::key_map::{find_decl, find_entry, find_key, map_view, member_names, KeyMap, MapView};
use super::lines::{clone_opt_string, lines_view, LineView, ResolvedGroup, SourceLine};
use crate::ast::parsed::{kind_roles, PartDecl, PartKind, ScoreLineRole, ScoreLineSlot};
use vstd::prelude::*;

verus! {

/// `n` copies of `item` joined by `sep`.
pub open spec fn join_repeat(item: Seq<char>, n: nat, sep: Seq<char>) -> Seq<char>
    decreases n,
{
    if n == 0 {
        Seq::empty()
    } else if n == 1 {
        item
    } else {
        join_repeat(item, (n - 1) as nat, sep) + sep + item
    }
}

/// `itertools::join` over `std::iter::repeat_n(item, count)`: `count` copies
/// of `item` separated by `sep` (empty for no copies), as the crate's
/// documentation and source show; the contract is taken on trust.
#[verifier::external_body]
fn join_repeated(item: &str, count: usize, sep: &str) -> (s: String)
    ensures
        s@ == join_repeat(item@, count as nat, sep@),
{
    itertools::join(std::iter::repeat_n(item, count), sep)
}

/// `itertools::repeat_n(role, n)`, collected: `n` copies of `role`; the
/// contract is taken on trust.
#[verifier::external_body]
fn repeat_roles(role: ScoreLineRole, n: usize) -> (v: Vec<ScoreLineRole>)
    ensures
        v@ == Seq::new(n as nat, |_i: int| role),
{
    itertools::repeat_n(role, n).collect()
}

/// The placeholder content for a part absent from a measure group: a blank
/// lyric `_`, or one quarter rest `0` per beat of the time signature.
pub open spec fn fill_text(role: ScoreLineRole, time_num: u8) -> Seq<char> {
    match role {
        ScoreLineRole::Lyrics => "_"@,
        _ => join_repeat("0"@, time_num as nat, " "@),
    }
}

/// The implicit-fill content (rest line or blank lyric) for a part absent
/// from an otherwise non-empty measure group.
pub fn implicit_fill(role: ScoreLineRole, time_num: u8) -> (s: String)
    ensures
        s@ == fill_text(role, time_num),
{
    match role {
        ScoreLineRole::Lyrics => String::from_str("_"),
        ScoreLineRole::Notes | ScoreLineRole::Chord => join_repeated("0", time_num as usize, " "),
    }
}

pub open spec fn repeat_role(role: ScoreLineRole, n: nat) -> Seq<ScoreLineRole> {
    Seq::new(n, |_i: int| role)
}

/// The roles a part contributes to one measure group: a `notes+lyrics`
/// part gets one lyric verse per lyric line written after its notes line
/// (at least one); a `lyrics` part one verse per line (at least one); a
/// `notes`/`chords` part one extra verse per attached line past its first;
/// a `notes+lyrics` part with no lines of its own takes its follow target's
/// roles; every other case keeps the kind's static roles.
pub open spec fn roles_for(
    kind: PartKind,
    key_lines: Option<Seq<LineView>>,
    follow_roles: Option<Seq<ScoreLineRole>>,
) -> Seq<ScoreLineRole> {
    match key_lines {
        Some(lines) => match kind {
            PartKind::NotesWithLyrics => seq![ScoreLineRole::Notes] + repeat_role(
                ScoreLineRole::Lyrics,
                if lines.len() >= 2 {
                    (lines.len() - 1) as nat
                } else {
                    1
                },
            ),
            PartKind::Lyrics => repeat_role(
                ScoreLineRole::Lyrics,
                if lines.len() >= 1 {
                    lines.len()
                } else {
                    1
                },
            ),
            PartKind::Notes | PartKind::Chords => if lines.len() > 1 {
                seq![kind_roles(kind)[0]] + repeat_role(ScoreLineRole::Lyrics, (lines.len() - 1) as nat)
            } else {
                kind_roles(kind)
            },
            PartKind::Percussion => kind_roles(kind),
        },
        None => match kind {
            PartKind::NotesWithLyrics => match follow_roles {
                Some(r) => r,
                None => kind_roles(kind),
            },
            _ => kind_roles(kind),
        },
    }
}

fn copy_roles(r: &Vec<ScoreLineRole>) -> (v: Vec<ScoreLineRole>)
    ensures
        v@ == r@,
{
    let mut v: Vec<ScoreLineRole> = Vec::new();
    for i in 0..r.len()
        invariant
            v@ == r@.take(i as int),
    {
        v.push(r[i]);
        assert(r@.take(i + 1) == r@.take(i as int).push(r@[i as int]));
    }
    assert(r@.take(r@.len() as int) == r@);
    v
}

fn static_roles(decl: &PartDecl) -> (v: Vec<ScoreLineRole>)
    ensures
        v@ == kind_roles(decl.kind),
{
    let roles = decl.score_line_roles();
    let mut v: Vec<ScoreLineRole> = Vec::new();
    for i in 0..roles.len()
        invariant
            v@ == roles@.take(i as int),
    {
        v.push(roles[i]);
        assert(roles@.take(i + 1) == roles@.take(i as int).push(roles@[i as int]));
    }
    assert(roles@.take(roles@.len() as int) == roles@);
    v
}

/// The score-line roles `decl` contributes to this measure group.
pub fn roles_for_group(
    decl: &PartDecl,
    key_lines: Option<&Vec<SourceLine>>,
    follow_target_roles: Option<&Vec<ScoreLineRole>>,
) -> (roles: Vec<ScoreLineRole>)
    ensures
        roles@ == roles_for(
            decl.kind,
            match key_lines {
                Some(l) => Some(lines_view(l@)),
                None => None,
            },
            match follow_target_roles {
                Some(r) => Some(r@),
                None => None,
            },
        ),
{
    match key_lines {
        Some(lines) => match decl.kind {
            PartKind::NotesWithLyrics => {
                let verse_count = if lines.len() >= 2 {
                    lines.len() - 1
                } else {
                    1
                };
                let mut roles = vec![ScoreLineRole::Notes];
                let mut rest = repeat_roles(ScoreLineRole::Lyrics, verse_count);
                roles.append(&mut rest);
                roles
            },
            PartKind::Lyrics => {
                let verse_count = if lines.len() >= 1 {
                    lines.len()
                } else {
                    1
                };
                repeat_roles(ScoreLineRole::Lyrics, verse_count)
            },
            PartKind::Notes | PartKind::Chords => {
                if lines.len() > 1 {
                    let base_role = decl.score_line_roles()[0];
                    let mut roles = vec![base_role];
                    let mut rest = repeat_roles(ScoreLineRole::Lyrics, lines.len() - 1);
                    roles.append(&mut rest);
                    roles
                } else {
                    static_roles(decl)
                }
            },
            PartKind::Percussion => static_roles(decl),
        },
        None => match decl.kind {
            PartKind::NotesWithLyrics => match follow_target_roles {
                Some(r) => copy_roles(r),
                None => static_roles(decl),
            },
            _ => static_roles(decl),
        },
    }
}


/// Whether every member of `g` is absent from the map while `abbrev` is one
/// of them: the whole group rests together in this measure.
pub open spec fn group_rests_whole(g: ResolvedGroup, m: MapView, abbrev: Seq<char>) -> bool {
    let names = member_names(g);
    &&& names.contains(abbrev)
    &&& forall|j: int| 0 <= j < names.len() ==> find_key(m, #[trigger] names[j]) is None
}

/// The first resolved group containing `abbrev` whose members all rest here.
pub open spec fn resting_group(groups: Seq<ResolvedGroup>, m: MapView, abbrev: Seq<char>) -> Option<
    Seq<char>,
>
    decreases groups.len(),
{
    if groups.len() == 0 {
        None
    } else {
        match resting_group(groups.drop_last(), m, abbrev) {
            Some(g) => Some(g),
            None => if group_rests_whole(groups.last(), m, abbrev) {
                Some(groups.last().abbreviation@)
            } else {
                None
            },
        }
    }
}

fn rests_whole(g: &ResolvedGroup, key_map: &KeyMap, abbrev: &String) -> (b: bool)
    ensures
        b == group_rests_whole(*g, map_view(key_map@), abbrev@),
{
    let ghost names = member_names(*g);
    let n = g.members.len();
    let mut is_member = false;
    let mut all_absent = true;
    for j in 0..n
        invariant
            n == g.members@.len(),
            names == g.members@.map_values(|s: String| s@),
            is_member == names.take(j as int).contains(abbrev@),
            all_absent == forall|t: int| 0 <= t < j ==> find_key(map_view(key_map@), #[trigger] names[t]) is None,
    {
        let ghost before = names.take(j as int);
        assert(names.take(j + 1) == before.push(names[j as int]));
        if g.members[j] == *abbrev {
            is_member = true;
            assert(names.take(j + 1)[j as int] == abbrev@);
        } else {
            assert(names.take(j + 1).contains(abbrev@) ==> before.contains(abbrev@)) by {
                if names.take(j + 1).contains(abbrev@) {
                    let k = choose|k: int| 0 <= k < j + 1 && #[trigger] names.take(j + 1)[k] == abbrev@;
                    assert(k < j);
                    assert(before[k] == abbrev@);
                }
            }
        }
        if find_entry(key_map, &g.members[j]).is_some() {
            all_absent = false;
        }
    }
    assert(names.take(n as int) == names);
    is_member && all_absent
}

/// The group to tag `abbrev`'s implicit fill with, if its whole group rests.
pub fn resting_group_of(groups: &[ResolvedGroup], key_map: &KeyMap, abbrev: &String) -> (r: Option<String>)
    ensures
        match r {
            Some(g) => resting_group(groups@, map_view(key_map@), abbrev@) == Some(g@),
            None => resting_group(groups@, map_view(key_map@), abbrev@) is None,
        },
{
    let n = groups.len();
    let mut found: Option<String> = None;
    for i in 0..n
        invariant
            n == groups@.len(),
            match found {
                Some(g) => resting_group(groups@.take(i as int), map_view(key_map@), abbrev@) == Some(g@),
                None => resting_group(groups@.take(i as int), map_view(key_map@), abbrev@) is None,
            },
    {
        assert(groups@.take(i + 1).drop_last() == groups@.take(i as int));
        assert(groups@.take(i + 1).last() == groups@[i as int]);
        if found.is_none() && rests_whole(&groups[i], key_map, abbrev) {
            found = Some(groups[i].abbreviation.clone());
        }
    }
    assert(groups@.take(n as int) == groups@);
    found
}

/// Index of the first declaration before `limit` abbreviated `k`.
fn find_declaration_before(declarations: &[PartDecl], k: &String, limit: usize) -> (r: Option<usize>)
    requires
        limit <= declarations@.len(),
    ensures
        r is Some ==> r->0 < limit && find_decl(declarations@.take(limit as int), k@) == Some(r->0 as int),
        r is None ==> find_decl(declarations@.take(limit as int), k@) is None,
{
    let ghost d = declarations@.take(limit as int);
    let mut j: usize = 0;
    while j < limit
        invariant
            j <= limit <= declarations@.len(),
            d == declarations@.take(limit as int),
            forall|t: int| 0 <= t < j ==> d[t].abbreviation@ != k@,
        decreases limit - j,
    {
        if declarations[j].abbreviation == *k {
            proof {
                super::key_map::lemma_find_decl_unique(d, k@, j as int);
            }
            return Some(j);
        }
        j = j + 1;
    }
    None
}

/// The line filling one slot of an absent part.
pub open spec fn fill_line(role: ScoreLineRole, time_num: u8, pad_offset: usize, group: Option<Seq<char>>) -> LineView {
    LineView {
        content: fill_text(role, time_num),
        offset: pad_offset,
        group,
        is_implicit_fill: true,
        is_positional: false,
    }
}

/// Per-track lines and roles after resolving some prefix of the declarations.
pub struct Tracks {
    pub lines: Seq<Seq<LineView>>,
    pub roles: Seq<Seq<ScoreLineRole>>,
}

pub open spec fn key_lines_of(m: MapView, abbrev: Seq<char>) -> Option<Seq<LineView>> {
    match find_key(m, abbrev) {
        Some(i) => Some(m[i].1),
        None => None,
    }
}

/// The earlier declaration `decls[i]` follows, if any.
pub open spec fn follow_index(decls: Seq<PartDecl>, i: int) -> Option<int> {
    match decls[i].follow_target {
        Some(t) => find_decl(decls.take(i), t@),
        None => None,
    }
}

/// The line of slot `s`: the part's own line, else its follow target's, else fill.
pub open spec fn slot_line(
    s: int,
    role: ScoreLineRole,
    own: Option<Seq<LineView>>,
    followed: Option<Seq<LineView>>,
    time_num: u8,
    pad_offset: usize,
    group: Option<Seq<char>>,
) -> LineView {
    if own is Some && s < own->0.len() {
        own->0[s]
    } else if followed is Some && s < followed->0.len() {
        followed->0[s]
    } else {
        fill_line(role, time_num, pad_offset, group)
    }
}

pub open spec fn tracks(
    decls: Seq<PartDecl>,
    m: MapView,
    groups: Seq<ResolvedGroup>,
    time_num: u8,
    pad_offset: usize,
    n: nat,
) -> Tracks
    decreases n,
{
    if n == 0 {
        Tracks { lines: Seq::empty(), roles: Seq::empty() }
    } else {
        let prev = tracks(decls, m, groups, time_num, pad_offset, (n - 1) as nat);
        let i = n - 1;
        let decl = decls[i];
        let own = key_lines_of(m, decl.abbreviation@);
        let fi = follow_index(decls, i);
        let roles = roles_for(
            decl.kind,
            own,
            match fi {
                Some(t) => Some(prev.roles[t]),
                None => None,
            },
        );
        let followed = match fi {
            Some(t) => Some(prev.lines[t]),
            None => None,
        };
        let group = resting_group(groups, m, decl.abbreviation@);
        let lines = Seq::new(
            roles.len(),
            |s: int| slot_line(s, roles[s], own, followed, time_num, pad_offset, group),
        );
        Tracks { lines: prev.lines.push(lines), roles: prev.roles.push(roles) }
    }
}

pub open spec fn flatten_lines(s: Seq<Seq<LineView>>) -> Seq<LineView>
    decreases s.len(),
{
    if s.len() == 0 {
        Seq::empty()
    } else {
        flatten_lines(s.drop_last()) + s.last()
    }
}

pub open spec fn slots_of(roles: Seq<Seq<ScoreLineRole>>) -> Seq<ScoreLineSlot>
    decreases roles.len(),
{
    if roles.len() == 0 {
        Seq::empty()
    } else {
        slots_of(roles.drop_last()) + roles.last().map_values(
            |role: ScoreLineRole| ScoreLineSlot { track_index: (roles.len() - 1) as usize, role },
        )
    }
}

fn fill_source_line(role: ScoreLineRole, time_num: u8, pad_offset: usize, group: &Option<String>) -> (l: SourceLine)
    ensures
        l@ == fill_line(role, time_num, pad_offset, super::lines::opt_str_view(*group)),
{
    SourceLine {
        content: implicit_fill(role, time_num),
        offset: pad_offset,
        group: clone_opt_string(group),
        is_implicit_fill: true,
        is_positional: false,
    }
}

/// Resolves every declaration's lines and roles for one measure group, in
/// declaration order, and flattens them into slot order.
pub fn resolve_tracks(
    key_map: &KeyMap,
    declarations: &[PartDecl],
    resolved_groups: &[ResolvedGroup],
    time_num: u8,
    pad_offset: usize,
) -> (r: (Vec<SourceLine>, Vec<ScoreLineSlot>))
    ensures
        ({
            let t = tracks(
                declarations@,
                map_view(key_map@),
                resolved_groups@,
                time_num,
                pad_offset,
                declarations@.len(),
            );
            &&& lines_view(r.0@) == flatten_lines(t.lines)
            &&& r.1@ == slots_of(t.roles)
        }),
{
    let ghost m = map_view(key_map@);
    let ghost decls = declarations@;
    let n = declarations.len();
    let mut resolved_per_track: Vec<Vec<SourceLine>> = Vec::new();
    let mut roles_per_track: Vec<Vec<ScoreLineRole>> = Vec::new();
    let mut lines: Vec<SourceLine> = Vec::new();
    let mut slots: Vec<ScoreLineSlot> = Vec::new();
    for i in 0..n
        invariant
            n == decls.len(),
            decls == declarations@,
            m == map_view(key_map@),
            ({
                let t = tracks(decls, m, resolved_groups@, time_num, pad_offset, i as nat);
                &&& resolved_per_track@.len() == i
                &&& roles_per_track@.len() == i
                &&& forall|k: int| 0 <= k < i ==> lines_view(#[trigger] resolved_per_track@[k]@) == t.lines[k]
                &&& forall|k: int| 0 <= k < i ==> (#[trigger] roles_per_track@[k])@ == t.roles[k]
                &&& t.lines.len() == i
                &&& t.roles.len() == i
                &&& lines_view(lines@) == flatten_lines(t.lines)
                &&& slots@ == slots_of(t.roles)
            }),
    {
        let ghost prev = tracks(decls, m, resolved_groups@, time_num, pad_offset, i as nat);
        let ghost next = tracks(decls, m, resolved_groups@, time_num, pad_offset, (i + 1) as nat);
        let decl = &declarations[i];
        let own_index = find_entry(key_map, &decl.abbreviation);
        let key_lines: Option<&Vec<SourceLine>> = match own_index {
            Some(k) => Some(&key_map[k].1),
            None => None,
        };
        let follow_target_index = match &decl.follow_target {
            Some(target) => find_declaration_before(declarations, target, i),
            None => None,
        };
        assert(match follow_target_index {
            Some(t) => follow_index(decls, i as int) == Some(t as int),
            None => follow_index(decls, i as int) is None,
        });
        let follow_roles: Option<&Vec<ScoreLineRole>> = match follow_target_index {
            Some(t) => Some(&roles_per_track[t]),
            None => None,
        };
        let roles = roles_for_group(decl, key_lines, follow_roles);
        let group = resting_group_of(resolved_groups, key_map, &decl.abbreviation);
        let ghost own = key_lines_of(m, decl.abbreviation@);
        let ghost followed = match follow_index(decls, i as int) {
            Some(t) => Some(prev.lines[t]),
            None => None,
        };
        let ghost gv = resting_group(resolved_groups@, m, decl.abbreviation@);
        assert(super::lines::opt_str_view(group) == gv);
        let mut track_lines: Vec<SourceLine> = Vec::new();
        let rn = roles.len();
        for s in 0..rn
            invariant
                rn == roles@.len(),
                track_lines@.len() == s,
                forall|k: int| 0 <= k < s ==> (#[trigger] track_lines@[k])@ == slot_line(
                    k,
                    roles@[k],
                    own,
                    followed,
                    time_num,
                    pad_offset,
                    gv,
                ),
                own is Some <==> key_lines is Some,
                key_lines matches Some(kl) ==> lines_view(kl@) == own->0,
                followed is Some <==> follow_target_index is Some,
                follow_target_index matches Some(t) ==> (t < resolved_per_track@.len() && lines_view(
                    resolved_per_track@[t as int]@,
                ) == followed->0),
                super::lines::opt_str_view(group) == gv,
        {
            let line = match key_lines {
                Some(kl) if s < kl.len() => {
                    assert(lines_view(kl@)[s as int] == kl@[s as int]@);
                    kl[s].clone()
                },
                _ => match follow_target_index {
                    Some(t) if s < resolved_per_track[t].len() => {
                        assert(lines_view(resolved_per_track@[t as int]@)[s as int]
                            == resolved_per_track@[t as int]@[s as int]@);
                        resolved_per_track[t][s].clone()
                    },
                    _ => fill_source_line(roles[s], time_num, pad_offset, &group),
                },
            };
            track_lines.push(line);
        }
        assert(lines_view(track_lines@) =~= next.lines.last());
        let ghost lines_before = lines@;
        let ghost slots_before = slots@;
        for s in 0..rn
            invariant
                rn == track_lines@.len(),
                rn == roles@.len(),
                lines_view(lines@) == lines_view(lines_before) + lines_view(track_lines@).take(s as int),
                slots@ == slots_before + roles@.take(s as int).map_values(
                    |role: ScoreLineRole| ScoreLineSlot { track_index: i, role },
                ),
        {
            let ghost lb = lines@;
            lines.push(track_lines[s].clone());
            assert(lines_view(lines@) =~= lines_view(lb).push(track_lines@[s as int]@));
            slots.push(ScoreLineSlot { track_index: i, role: roles[s] });
            assert(lines_view(track_lines@).take(s + 1) == lines_view(track_lines@).take(s as int).push(
                track_lines@[s as int]@,
            ));
            assert(roles@.take(s + 1).map_values(
                |role: ScoreLineRole| ScoreLineSlot { track_index: i, role },
            ) == roles@.take(s as int).map_values(
                |role: ScoreLineRole| ScoreLineSlot { track_index: i, role },
            ).push(ScoreLineSlot { track_index: i, role: roles@[s as int] }));
        }
        assert(lines_view(track_lines@).take(rn as int) == lines_view(track_lines@));
        assert(roles@.take(rn as int) == roles@);
        assert(next.lines.drop_last() == prev.lines);
        assert(next.roles.drop_last() == prev.roles);
        resolved_per_track.push(track_lines);
        roles_per_track.push(roles);
    }
    (lines, slots)
}

/// Every resolved track has one line per role.
pub proof fn lemma_tracks_aligned(
    decls: Seq<PartDecl>,
    m: MapView,
    groups: Seq<ResolvedGroup>,
    time_num: u8,
    pad_offset: usize,
    n: nat,
)
    ensures
        tracks(decls, m, groups, time_num, pad_offset, n).lines.len() == n,
        tracks(decls, m, groups, time_num, pad_offset, n).roles.len() == n,
        forall|i: int|
            0 <= i < n ==> (#[trigger] tracks(decls, m, groups, time_num, pad_offset, n).lines[i]).len()
                == tracks(decls, m, groups, time_num, pad_offset, n).roles[i].len(),
    decreases n,
{
    if n > 0 {
        lemma_tracks_aligned(decls, m, groups, time_num, pad_offset, (n - 1) as nat);
    }
}

/// Per-track lines and roles of equal lengths flatten to as many lines as
/// slots.
pub proof fn lemma_flatten_matches_slots(lines: Seq<Seq<LineView>>, roles: Seq<Seq<ScoreLineRole>>)
    requires
        lines.len() == roles.len(),
        forall|i: int| 0 <= i < lines.len() ==> (#[trigger] lines[i]).len() == roles[i].len(),
    ensures
        flatten_lines(lines).len() == slots_of(roles).len(),
    decreases lines.len(),
{
    if lines.len() > 0 {
        let l = lines.drop_last();
        let r = roles.drop_last();
        assert forall|i: int| 0 <= i < l.len() implies (#[trigger] l[i]).len() == r[i].len() by {
            assert(l[i] == lines[i]);
            assert(r[i] == roles[i]);
        }
        lemma_flatten_matches_slots(l, r);
        assert(lines.last().len() == roles.last().len());
    }
}

} // verus!
