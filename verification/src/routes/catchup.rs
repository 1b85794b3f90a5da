//! Federation catch-up: which mirrored rooms of a peer are polled, under
//! which room ids, with what page size, and how far the sync cursor moves.
use vstd::prelude::*;
use crate::text::{chars_of, eq_ignore_ascii_case, eq_ignore_case_spec, seq_eq};
use crate::routes::federation::{remote_room_id, room_id_spec};

verus! {

/// What catch-up reads of a mirrored space: the remote space id and the
/// local guild mirroring it.
#[derive(Clone, Debug)]
pub struct SpaceMappingRow {
    pub remote_space_id: String,
    pub local_guild_id: i64,
}

pub open spec fn row_view(r: SpaceMappingRow) -> (Seq<char>, i64) {
    (r.remote_space_id@, r.local_guild_id)
}

pub open spec fn rows_view(s: Seq<SpaceMappingRow>) -> Seq<(Seq<char>, i64)> {
    s.map_values(|r: SpaceMappingRow| row_view(r))
}

/// Lexicographic order on texts, character by character (the order of
/// `str` comparison, since UTF-8 keeps the order of code points).
pub open spec fn lex_lt(a: Seq<char>, b: Seq<char>) -> bool
    decreases a.len(),
{
    if a.len() == 0 {
        b.len() > 0
    } else if b.len() == 0 {
        false
    } else if a[0] != b[0] {
        a[0] < b[0]
    } else {
        lex_lt(a.drop_first(), b.drop_first())
    }
}

pub proof fn lemma_lex_total(a: Seq<char>, b: Seq<char>)
    ensures
        lex_lt(a, b) || a == b || lex_lt(b, a),
        !(lex_lt(a, b) && lex_lt(b, a)),
        !lex_lt(a, a),
    decreases a.len(),
{
    if a.len() > 0 && b.len() > 0 {
        lemma_lex_total(a.drop_first(), b.drop_first());
        if a[0] == b[0] && a.drop_first() == b.drop_first() {
            assert(a =~= seq![a[0]] + a.drop_first());
            assert(b =~= seq![b[0]] + b.drop_first());
        }
        lemma_lex_total(a.drop_first(), a.drop_first());
    } else if a.len() == 0 && b.len() == 0 {
        assert(a =~= b);
    } else if a.len() > 0 {
        lemma_lex_total(a.drop_first(), a.drop_first());
    }
}

pub proof fn lemma_lex_trans(a: Seq<char>, b: Seq<char>, c: Seq<char>)
    requires
        lex_lt(a, b),
        lex_lt(b, c),
    ensures
        lex_lt(a, c),
    decreases a.len(),
{
    if a.len() > 0 && b.len() > 0 && c.len() > 0 && a[0] == b[0] && b[0] == c[0] {
        lemma_lex_trans(a.drop_first(), b.drop_first(), c.drop_first());
    }
}

fn key_lt(a: &[char], b: &[char]) -> (r: bool)
    ensures
        r == lex_lt(a@, b@),
{
    let mut i: usize = 0;
    assert(a@.skip(0) == a@);
    assert(b@.skip(0) == b@);
    while i < a.len() && i < b.len()
        invariant
            i <= a@.len(),
            i <= b@.len(),
            lex_lt(a@, b@) == lex_lt(a@.skip(i as int), b@.skip(i as int)),
        decreases a.len() - i,
    {
        assert(a@.skip(i as int)[0] == a@[i as int]);
        assert(b@.skip(i as int)[0] == b@[i as int]);
        if a[i] != b[i] {
            return a[i] < b[i];
        }
        assert(a@.skip(i as int).drop_first() == a@.skip(i as int + 1));
        assert(b@.skip(i as int).drop_first() == b@.skip(i as int + 1));
        i = i + 1;
    }
    a.len() < b.len()
}

/// `p` lists each index of a sequence of length `n` once.
pub open spec fn is_permutation(p: Seq<int>, n: nat) -> bool {
    &&& p.len() == n
    &&& forall|k: int| 0 <= k < p.len() ==> 0 <= #[trigger] p[k] < n
    &&& forall|k1: int, k2: int| 0 <= k1 < k2 < p.len() ==> p[k1] != p[k2]
}

/// `out` is `rows` sorted by remote space id, stably: `p` says where each
/// element came from.
pub open spec fn stable_sorted_by_space(
    rows: Seq<(Seq<char>, i64)>,
    out: Seq<(Seq<char>, i64)>,
    p: Seq<int>,
) -> bool {
    &&& is_permutation(p, rows.len())
    &&& out.len() == rows.len()
    &&& forall|k: int| 0 <= k < out.len() ==> #[trigger] out[k] == rows[p[k]]
    &&& forall|k1: int, k2: int|
        0 <= k1 < k2 < out.len() ==> !lex_lt(#[trigger] out[k2].0, #[trigger] out[k1].0)
    &&& forall|k1: int, k2: int|
        0 <= k1 < k2 < out.len() && #[trigger] out[k1].0 == #[trigger] out[k2].0 ==> p[k1] < p[k2]
}

pub open spec fn keys_of(rows: Seq<SpaceMappingRow>) -> Seq<Seq<char>> {
    rows.map_values(|r: SpaceMappingRow| r.remote_space_id@)
}

pub open spec fn idx(o: Seq<usize>) -> Seq<int> {
    o.map_values(|x: usize| x as int)
}

/// Sorts mappings by remote space id, keeping the given order among equal ids.
pub fn sort_mappings(rows: &Vec<SpaceMappingRow>) -> (r: Vec<SpaceMappingRow>)
    ensures
        exists|p: Seq<int>| stable_sorted_by_space(rows_view(rows@), rows_view(r@), p),
{
    let ghost ks = keys_of(rows@);
    let mut keys: Vec<Vec<char>> = Vec::new();
    let mut j: usize = 0;
    while j < rows.len()
        invariant
            j <= rows@.len(),
            ks == keys_of(rows@),
            keys@.len() == j,
            forall|t: int| 0 <= t < j ==> (#[trigger] keys@[t])@ == ks[t],
        decreases rows.len() - j,
    {
        keys.push(chars_of(rows[j].remote_space_id.as_str()));
        j = j + 1;
    }
    let mut order: Vec<usize> = Vec::new();
    let mut i: usize = 0;
    while i < rows.len()
        invariant
            i <= rows@.len(),
            keys@.len() == rows@.len(),
            ks == keys_of(rows@),
            forall|t: int| 0 <= t < keys@.len() ==> (#[trigger] keys@[t])@ == ks[t],
            is_permutation(idx(order@), i as nat),
            forall|k: int| 0 <= k < order@.len() ==> (#[trigger] order@[k]) < i,
            forall|k1: int, k2: int|
                0 <= k1 < k2 < order@.len() ==> !lex_lt(
                    #[trigger] ks[order@[k2] as int],
                    #[trigger] ks[order@[k1] as int],
                ),
            forall|k1: int, k2: int|
                0 <= k1 < k2 < order@.len() && #[trigger] ks[order@[k1] as int] == #[trigger] ks[order@[k2] as int]
                    ==> order@[k1] < order@[k2],
        decreases rows.len() - i,
    {
        let mut pos: usize = 0;
        while pos < order.len() && !key_lt(&keys[i], &keys[order[pos]])
            invariant
                pos <= order@.len(),
                i < keys@.len(),
                keys@.len() == rows@.len(),
                forall|t: int| 0 <= t < keys@.len() ==> (#[trigger] keys@[t])@ == ks[t],
                is_permutation(idx(order@), i as nat),
                forall|k: int| 0 <= k < order@.len() ==> (#[trigger] order@[k]) < i,
                forall|k: int| 0 <= k < pos ==> !lex_lt(ks[i as int], #[trigger] ks[order@[k] as int]),
            decreases order.len() - pos,
        {
            assert(idx(order@)[pos as int] == order@[pos as int] as int);
            pos = pos + 1;
        }
        let ghost o = order@;
        proof {
            if pos < o.len() {
                assert(idx(o)[pos as int] == o[pos as int] as int);
            }
        }
        order.insert(pos, i);
        let ghost o2 = order@;
        proof {
            assert(o2 == o.insert(pos as int, i));
            assert forall|k: int| 0 <= k < o2.len() implies #[trigger] o2[k] == (if k < pos {
                o[k]
            } else if k == pos {
                i
            } else {
                o[k - 1]
            }) by {}
            // the new element goes after every smaller-or-equal key and before every larger one
            assert forall|k: int| pos < k < o2.len() implies lex_lt(ks[i as int], #[trigger] ks[o2[k] as int]) by {
                assert(o2[k] == o[k - 1]);
                assert(idx(o)[pos as int] == o[pos as int] as int);
                if k - 1 == pos {
                } else {
                    assert(!lex_lt(ks[o[k - 1] as int], ks[o[pos as int] as int]));
                    lemma_lex_total(ks[o[pos as int] as int], ks[o[k - 1] as int]);
                    if ks[o[pos as int] as int] != ks[o[k - 1] as int] {
                        lemma_lex_trans(ks[i as int], ks[o[pos as int] as int], ks[o[k - 1] as int]);
                    }
                }
            }
            assert forall|k: int| 0 <= k < o2.len() implies (#[trigger] o2[k]) < i + 1 by {
                if k < pos {
                    assert(o2[k] == o[k]);
                } else if k > pos {
                    assert(o2[k] == o[k - 1]);
                }
            }
            assert forall|k: int| 0 <= k < idx(o2).len() implies 0 <= #[trigger] idx(o2)[k] < i + 1 by {
                if k < pos {
                    assert(idx(o)[k] == o[k] as int);
                } else if k > pos {
                    assert(idx(o)[k - 1] == o[k - 1] as int);
                }
            }
            assert forall|k1: int, k2: int| 0 <= k1 < k2 < idx(o2).len() implies idx(o2)[k1] != idx(o2)[k2] by {
                let a = if k1 < pos { k1 } else { k1 - 1 };
                let b = if k2 < pos { k2 } else { k2 - 1 };
                if k1 != pos && k2 != pos {
                    assert(idx(o)[a] == o[a] as int);
                    assert(idx(o)[b] == o[b] as int);
                } else if k1 == pos {
                    assert(idx(o)[b] == o[b] as int);
                } else {
                    assert(idx(o)[a] == o[a] as int);
                }
            }
            assert forall|k1: int, k2: int| 0 <= k1 < k2 < o2.len() implies !lex_lt(
                #[trigger] ks[o2[k2] as int],
                #[trigger] ks[o2[k1] as int],
            ) by {
                if k2 == pos {
                    assert(o2[k1] == o[k1]);
                } else if k1 == pos {
                    lemma_lex_total(ks[i as int], ks[o2[k2] as int]);
                } else {
                    let a = if k1 < pos { k1 } else { k1 - 1 };
                    let b = if k2 < pos { k2 } else { k2 - 1 };
                    assert(o2[k1] == o[a] && o2[k2] == o[b]);
                }
            }
            assert forall|k1: int, k2: int|
                0 <= k1 < k2 < o2.len() && #[trigger] ks[o2[k1] as int] == #[trigger] ks[o2[k2] as int]
                implies o2[k1] < o2[k2] by {
                if k2 == pos {
                    assert(o2[k1] == o[k1]);
                    assert(idx(o)[k1] == o[k1] as int);
                } else if k1 == pos {
                    lemma_lex_total(ks[i as int], ks[i as int]);
                } else {
                    let a = if k1 < pos { k1 } else { k1 - 1 };
                    let b = if k2 < pos { k2 } else { k2 - 1 };
                    assert(o2[k1] == o[a] && o2[k2] == o[b]);
                }
            }
        }
        i = i + 1;
    }
    let mut out: Vec<SpaceMappingRow> = Vec::new();
    let mut k: usize = 0;
    while k < order.len()
        invariant
            k <= order@.len(),
            order@.len() == rows@.len(),
            is_permutation(idx(order@), rows@.len()),
            out@.len() == k,
            forall|t: int| 0 <= t < k ==> #[trigger] row_view(out@[t]) == row_view(rows@[order@[t] as int]),
        decreases order.len() - k,
    {
        assert(idx(order@)[k as int] == order@[k as int] as int);
        let r = &rows[order[k]];
        out.push(SpaceMappingRow { remote_space_id: r.remote_space_id.clone(), local_guild_id: r.local_guild_id });
        k = k + 1;
    }
    let ghost p = idx(order@);
    proof {
        let rv = rows_view(rows@);
        let ov = rows_view(out@);
        assert forall|t: int| 0 <= t < ov.len() implies #[trigger] ov[t] == rv[p[t]] by {
            assert(p[t] == order@[t] as int);
        }
        assert forall|k1: int, k2: int| 0 <= k1 < k2 < ov.len() implies !lex_lt(
            #[trigger] ov[k2].0,
            #[trigger] ov[k1].0,
        ) by {
            assert(ov[k1].0 == ks[order@[k1] as int]);
            assert(ov[k2].0 == ks[order@[k2] as int]);
        }
        assert forall|k1: int, k2: int|
            0 <= k1 < k2 < ov.len() && #[trigger] ov[k1].0 == #[trigger] ov[k2].0 implies p[k1] < p[k2] by {
            assert(ov[k1].0 == ks[order@[k1] as int]);
            assert(ov[k2].0 == ks[order@[k2] as int]);
        }
        assert(stable_sorted_by_space(rv, ov, p));
    }
    out
}

/// Consecutive repeats collapsed to one, as `Vec::dedup` does.
pub open spec fn dedup_spec(s: Seq<(Seq<char>, i64)>) -> Seq<(Seq<char>, i64)>
    decreases s.len(),
{
    if s.len() == 0 {
        s
    } else {
        let d = dedup_spec(s.drop_last());
        if d.len() > 0 && d.last() == s.last() {
            d
        } else {
            d.push(s.last())
        }
    }
}

/// After collapsing, no two neighbours are equal, and the last element stays last.
pub proof fn lemma_dedup_neighbours_differ(s: Seq<(Seq<char>, i64)>)
    ensures
        forall|k: int| 0 < k < dedup_spec(s).len() ==> dedup_spec(s)[k - 1] != #[trigger] dedup_spec(s)[k],
        s.len() > 0 ==> dedup_spec(s).len() > 0 && dedup_spec(s).last() == s.last(),
        dedup_spec(s).len() <= s.len(),
    decreases s.len(),
{
    if s.len() > 0 {
        lemma_dedup_neighbours_differ(s.drop_last());
        let d = dedup_spec(s.drop_last());
        if !(d.len() > 0 && d.last() == s.last()) {
            assert forall|k: int| 0 < k < d.push(s.last()).len() implies d.push(s.last())[k - 1]
                != #[trigger] d.push(s.last())[k] by {
                if k < d.len() {
                    assert(d[k - 1] != d[k]);
                }
            }
        }
    }
}

fn dedup_mappings(rows: Vec<SpaceMappingRow>) -> (r: Vec<SpaceMappingRow>)
    ensures
        rows_view(r@) == dedup_spec(rows_view(rows@)),
{
    let ghost rv = rows_view(rows@);
    let mut out: Vec<SpaceMappingRow> = Vec::new();
    let mut last_key: Vec<char> = Vec::new();
    let mut j: usize = 0;
    while j < rows.len()
        invariant
            j <= rows@.len(),
            rv == rows_view(rows@),
            rows_view(out@) == dedup_spec(rv.take(j as int)),
            out@.len() > 0 ==> last_key@ == out@.last().remote_space_id@,
        decreases rows.len() - j,
    {
        let key = chars_of(rows[j].remote_space_id.as_str());
        let dup = out.len() > 0 && seq_eq(&last_key, &key)
            && out[out.len() - 1].local_guild_id == rows[j].local_guild_id;
        proof {
            assert(rv.take(j as int + 1).drop_last() == rv.take(j as int));
            assert(rv.take(j as int + 1).last() == rv[j as int]);
            if out@.len() > 0 {
                assert(rows_view(out@).last() == row_view(out@.last()));
            }
        }
        if !dup {
            let ghost before = out@;
            out.push(
                SpaceMappingRow {
                    remote_space_id: rows[j].remote_space_id.clone(),
                    local_guild_id: rows[j].local_guild_id,
                },
            );
            proof {
                assert(rows_view(out@) == rows_view(before).push(rv[j as int]));
            }
            last_key = key;
        }
        j = j + 1;
    }
    proof {
        assert(rv.take(rows@.len() as int) == rv);
    }
    out
}

/// What catch-up polls of one peer: its mappings sorted by remote space id
/// (stably), exact repeats dropped, at most `max_rooms_per_peer` of them.
pub open spec fn planned_mappings(
    rows: Seq<(Seq<char>, i64)>,
    sorted: Seq<(Seq<char>, i64)>,
    max_rooms_per_peer: nat,
) -> Seq<(Seq<char>, i64)> {
    let d = dedup_spec(sorted);
    d.take(if max_rooms_per_peer < d.len() { max_rooms_per_peer as int } else { d.len() as int })
}

/// Sorts a peer's mappings by remote space id, drops exact repeats and keeps
/// the first `max_rooms_per_peer`.
pub fn plan_catchup_mappings(rows: Vec<SpaceMappingRow>, max_rooms_per_peer: usize) -> (r: Vec<
    SpaceMappingRow,
>)
    ensures
        exists|sorted: Seq<(Seq<char>, i64)>, p: Seq<int>|
            stable_sorted_by_space(rows_view(rows@), sorted, p) && rows_view(r@) == planned_mappings(
                rows_view(rows@),
                sorted,
                max_rooms_per_peer as nat,
            ),
        r@.len() <= max_rooms_per_peer,
        forall|k: int| 0 < k < r@.len() ==> row_view(r@[k - 1]) != row_view(#[trigger] r@[k]),
{
    let sorted = sort_mappings(&rows);
    let d = dedup_mappings(sorted);
    let ghost dv = rows_view(d@);
    proof {
        lemma_dedup_neighbours_differ(rows_view(sorted@));
    }
    let mut out: Vec<SpaceMappingRow> = Vec::new();
    let mut k: usize = 0;
    while k < d.len() && k < max_rooms_per_peer
        invariant
            k <= d@.len(),
            k <= max_rooms_per_peer,
            dv == rows_view(d@),
            rows_view(out@) == dv.take(k as int),
        decreases d.len() - k,
    {
        let ghost before = out@;
        out.push(
            SpaceMappingRow {
                remote_space_id: d[k].remote_space_id.clone(),
                local_guild_id: d[k].local_guild_id,
            },
        );
        proof {
            assert(rows_view(out@) == rows_view(before).push(dv[k as int]));
            assert(dv.take(k as int + 1) == dv.take(k as int).push(dv[k as int]));
        }
        k = k + 1;
    }
    proof {
        assert forall|t: int| 0 < t < out@.len() implies row_view(out@[t - 1]) != row_view(
            #[trigger] out@[t],
        ) by {
            assert(rows_view(out@)[t] == row_view(out@[t]));
            assert(rows_view(out@)[t - 1] == row_view(out@[t - 1]));
            assert(dv[t] == dedup_spec(rows_view(sorted@))[t]);
        }
    }
    out
}

/// The origins whose mappings belong to a peer: its server name, and its
/// domain where that is another name.
pub fn catchup_mapping_origins(peer_domain: &str, peer_server_name: &str) -> (r: Vec<String>)
    ensures
        r@.map_values(|o: String| o@) == (if eq_ignore_case_spec(peer_domain@, peer_server_name@) {
            seq![peer_server_name@]
        } else {
            seq![peer_server_name@, peer_domain@]
        }),
{
    let mut r: Vec<String> = Vec::new();
    r.push(peer_server_name.to_string());
    if !eq_ignore_ascii_case(&chars_of(peer_domain), &chars_of(peer_server_name)) {
        r.push(peer_domain.to_string());
    }
    proof {
        assert(r@.map_values(|o: String| o@) =~= (if eq_ignore_case_spec(peer_domain@, peer_server_name@) {
            seq![peer_server_name@]
        } else {
            seq![peer_server_name@, peer_domain@]
        }));
    }
    r
}

/// The domains under which a mirrored space is fetched from a peer: its
/// domain, then its server name where that is another name.
pub fn catchup_candidate_domains(peer_domain: &str, peer_server_name: &str) -> (r: Vec<String>)
    ensures
        r@.map_values(|o: String| o@) == (if eq_ignore_case_spec(peer_server_name@, peer_domain@) {
            seq![peer_domain@]
        } else {
            seq![peer_domain@, peer_server_name@]
        }),
{
    let mut r: Vec<String> = Vec::new();
    r.push(peer_domain.to_string());
    if !eq_ignore_ascii_case(&chars_of(peer_server_name), &chars_of(peer_domain)) {
        r.push(peer_server_name.to_string());
    }
    proof {
        assert(r@.map_values(|o: String| o@) =~= (if eq_ignore_case_spec(peer_server_name@, peer_domain@) {
            seq![peer_domain@]
        } else {
            seq![peer_domain@, peer_server_name@]
        }));
    }
    r
}

/// The room ids polled for one mapping: one per candidate domain, in order.
pub fn catchup_room_ids(remote_space_id: &str, peer_domain: &str, peer_server_name: &str) -> (r: Vec<
    String,
>)
    ensures
        r@.map_values(|o: String| o@) == (if eq_ignore_case_spec(peer_server_name@, peer_domain@) {
            seq![room_id_spec(remote_space_id@, peer_domain@)]
        } else {
            seq![
                room_id_spec(remote_space_id@, peer_domain@),
                room_id_spec(remote_space_id@, peer_server_name@),
            ]
        }),
{
    let domains = catchup_candidate_domains(peer_domain, peer_server_name);
    let ghost dv = domains@.map_values(|o: String| o@);
    let mut r: Vec<String> = Vec::new();
    let mut k: usize = 0;
    while k < domains.len()
        invariant
            k <= domains@.len(),
            dv == domains@.map_values(|o: String| o@),
            r@.len() == k,
            forall|t: int| 0 <= t < k ==> (#[trigger] r@[t])@ == room_id_spec(remote_space_id@, dv[t]),
        decreases domains.len() - k,
    {
        r.push(remote_room_id(remote_space_id, domains[k].as_str()));
        k = k + 1;
    }
    proof {
        assert(r@.map_values(|o: String| o@) =~= (if eq_ignore_case_spec(peer_server_name@, peer_domain@) {
            seq![room_id_spec(remote_space_id@, peer_domain@)]
        } else {
            seq![
                room_id_spec(remote_space_id@, peer_domain@),
                room_id_spec(remote_space_id@, peer_server_name@),
            ]
        }));
    }
    r
}

/// A peer whose server name is this server's own (ignoring ASCII case) is
/// not polled.
pub fn is_own_server(peer_server_name: &str, local_server_name: &str) -> (r: bool)
    ensures
        r == eq_ignore_case_spec(peer_server_name@, local_server_name@),
{
    eq_ignore_ascii_case(&chars_of(peer_server_name), &chars_of(local_server_name))
}

/// Page size asked of a peer per room: the configured limit held to 1..=500.
pub fn catchup_page_limit(per_room_limit: i64) -> (r: i64)
    ensures
        r == (if per_room_limit < 1 {
            1
        } else if per_room_limit > 500 {
            500
        } else {
            per_room_limit
        }),
{
    if per_room_limit < 1 {
        1
    } else if per_room_limit > 500 {
        500
    } else {
        per_room_limit
    }
}

/// Where polling of a room starts: the stored cursor, never below zero.
pub fn catchup_since_depth(cursor: i64) -> (r: i64)
    ensures
        r == (if cursor < 0 { 0 } else { cursor }),
{
    if cursor < 0 { 0 } else { cursor }
}

pub open spec fn max_i(a: int, b: int) -> int {
    if a < b { b } else { a }
}

/// The cursor after ingesting the events `(depth, origin_ts)` in order: each
/// moves it to at least its depth, or its origin time, or 1.
pub open spec fn synced_depth_spec(since: int, ingested: Seq<(i64, i64)>) -> int
    decreases ingested.len(),
{
    if ingested.len() == 0 {
        since
    } else {
        let e = ingested.last();
        max_i(synced_depth_spec(since, ingested.drop_last()), max_i(e.0 as int, max_i(e.1 as int, 1)))
    }
}

/// The cursor only moves forward.
pub proof fn law_synced_depth_monotone(since: int, ingested: Seq<(i64, i64)>)
    ensures
        synced_depth_spec(since, ingested) >= since,
    decreases ingested.len(),
{
    if ingested.len() > 0 {
        law_synced_depth_monotone(since, ingested.drop_last());
    }
}

/// The sync cursor after the events that were verified and ingested, given
/// as `(depth, origin_ts)` in the order they were received.
pub fn newest_synced_depth(since_depth: i64, ingested: &Vec<(i64, i64)>) -> (r: i64)
    ensures
        r == synced_depth_spec(since_depth as int, ingested@),
{
    let mut newest: i64 = since_depth;
    let mut k: usize = 0;
    while k < ingested.len()
        invariant
            k <= ingested@.len(),
            newest == synced_depth_spec(since_depth as int, ingested@.take(k as int)),
        decreases ingested.len() - k,
    {
        let (depth, origin_ts) = ingested[k];
        let floor: i64 = if origin_ts > 1 { origin_ts } else { 1 };
        let step: i64 = if depth > floor { depth } else { floor };
        if step > newest {
            newest = step;
        }
        proof {
            assert(ingested@.take(k as int + 1).drop_last() == ingested@.take(k as int));
            assert(ingested@.take(k as int + 1).last() == ingested@[k as int]);
        }
        k = k + 1;
    }
    proof {
        assert(ingested@.take(ingested@.len() as int) == ingested@);
    }
    newest
}


/// What became of one event fetched during catch-up: whether its origin
/// signature checked out, whether ingesting it succeeded (only tried for
/// verified events), its depth and origin time.
#[derive(Clone, Copy, Debug)]
pub struct CatchupOutcome {
    pub verified: bool,
    pub ingested: bool,
    pub depth: i64,
    pub origin_ts: i64,
}

/// The `(depth, origin_ts)` of the events that count for the cursor: those
/// verified and ingested, in order. An unverified event never counts.
pub open spec fn counted_events(events: Seq<CatchupOutcome>) -> Seq<(i64, i64)>
    decreases events.len(),
{
    if events.len() == 0 {
        Seq::empty()
    } else {
        let rest = counted_events(events.drop_last());
        let e = events.last();
        if e.verified && e.ingested {
            rest.push((e.depth, e.origin_ts))
        } else {
            rest
        }
    }
}

/// The cursor written after a room's events: the newest synced depth, and
/// only when it moved past where polling started.
pub open spec fn catchup_cursor_write(since: int, events: Seq<CatchupOutcome>) -> Option<int> {
    let newest = synced_depth_spec(since, counted_events(events));
    if newest > since {
        Some(newest)
    } else {
        None
    }
}

/// The cursor to store for a room after its fetched events, or `None` when
/// it stays as it was.
pub fn catchup_cursor_update(since_depth: i64, events: &Vec<CatchupOutcome>) -> (r: Option<i64>)
    ensures
        match r {
            Some(c) => catchup_cursor_write(since_depth as int, events@) == Some(c as int),
            None => catchup_cursor_write(since_depth as int, events@) is None,
        },
{
    let mut counted: Vec<(i64, i64)> = Vec::new();
    let mut k: usize = 0;
    while k < events.len()
        invariant
            k <= events@.len(),
            counted@ == counted_events(events@.take(k as int)),
        decreases events.len() - k,
    {
        let e = events[k];
        proof {
            assert(events@.take(k as int + 1).drop_last() == events@.take(k as int));
            assert(events@.take(k as int + 1).last() == events@[k as int]);
        }
        if e.verified && e.ingested {
            counted.push((e.depth, e.origin_ts));
        }
        k = k + 1;
    }
    proof {
        assert(events@.take(events@.len() as int) == events@);
    }
    let newest = newest_synced_depth(since_depth, &counted);
    if newest > since_depth {
        Some(newest)
    } else {
        None
    }
}

/// The stored cursor of a room after one catch-up pass over its events,
/// starting from the stored cursor `c0`.
pub open spec fn stored_cursor_after(c0: i64, events: Seq<CatchupOutcome>) -> int {
    match catchup_cursor_write(if c0 < 0 { 0 } else { c0 as int }, events) {
        Some(c) => c,
        None => c0 as int,
    }
}

proof fn lemma_counted_from_some_event(events: Seq<CatchupOutcome>)
    requires
        counted_events(events).len() > 0,
    ensures
        exists|i: int| 0 <= i < events.len() && (#[trigger] events[i]).verified && events[i].ingested,
    decreases events.len(),
{
    let e = events.last();
    if e.verified && e.ingested {
        assert(events[events.len() - 1] == e);
    } else {
        lemma_counted_from_some_event(events.drop_last());
        let i = choose|i: int| 0 <= i < events.drop_last().len() && (#[trigger] events.drop_last()[i]).verified
            && events.drop_last()[i].ingested;
        assert(events[i] == events.drop_last()[i]);
    }
}

/// Catch-up moves a room's cursor only forward, and moves it only when an
/// event that passed its origin-signature check was ingested.
pub proof fn law_catchup_cursor(c0: i64, events: Seq<CatchupOutcome>)
    ensures
        stored_cursor_after(c0, events) >= c0,
        stored_cursor_after(c0, events) > c0 ==> exists|i: int|
            0 <= i < events.len() && (#[trigger] events[i]).verified && events[i].ingested,
{
    let since: int = if c0 < 0 { 0 } else { c0 as int };
    law_synced_depth_monotone(since, counted_events(events));
    if stored_cursor_after(c0, events) > c0 && counted_events(events).len() == 0 {
        assert(synced_depth_spec(since, counted_events(events)) == since);
    }
    if counted_events(events).len() > 0 {
        lemma_counted_from_some_event(events);
    }
}

} // verus!
