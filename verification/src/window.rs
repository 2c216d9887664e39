use vstd::prelude::*;
use crate::error::Error;

verus! {

/// Sentinel rank for a window that does not list its own address in its
/// group membership list: it sorts after every genuinely ranked window.
pub const UNRANKED: usize = usize::MAX;

/// One validated window of the active workspace.
pub struct WindowData {
    pub title: String,
    pub app_name: String,
    pub active: bool,
    pub group_index: usize,
}

/// Raw per-window fields as the client-list query delivers them: `None`
/// stands for a field that is absent or not of the expected JSON type.
/// A `None` inside `grouped` is a group member that is not a string.
pub struct RawClient {
    pub address: Option<String>,
    pub title: Option<String>,
    pub app_name: Option<String>,
    pub workspace_id: Option<i64>,
    pub grouped: Option<Vec<Option<String>>>,
}

/// Raw fields of the active-workspace query, under the same convention.
pub struct RawWorkspace {
    pub id: Option<i64>,
    pub last_window: Option<String>,
}

/// Zero-based index of the first entry of `grouped` equal to `addr`,
/// or -1 when no entry matches.
pub open spec fn rank_in_group(addr: Seq<char>, grouped: Seq<Seq<char>>) -> int
    decreases grouped.len(),
{
    if grouped.len() == 0 {
        -1
    } else if grouped[0] == addr {
        0
    } else if rank_in_group(addr, grouped.skip(1)) < 0 {
        -1
    } else {
        rank_in_group(addr, grouped.skip(1)) + 1
    }
}

/// The displayed rank: position in the group list, or the sentinel.
pub open spec fn group_index_of(addr: Seq<char>, grouped: Seq<Seq<char>>) -> usize {
    if rank_in_group(addr, grouped) < 0 {
        UNRANKED
    } else {
        rank_in_group(addr, grouped) as usize
    }
}

/// The group membership list as plain text; meaningful once every
/// member is known to be present.
pub open spec fn grouped_views(g: Seq<Option<String>>) -> Seq<Seq<char>> {
    g.map_values(|e: Option<String>| e.unwrap()@)
}

/// The message of the first malformed field of one raw client record,
/// if any; checked in the order address, group list, title, app name.
pub open spec fn client_parse_error(c: RawClient) -> Option<Seq<char>> {
    if c.address is None {
        Some("Non-string window address"@)
    } else if c.grouped is None || exists|k: int|
        0 <= k < c.grouped.unwrap()@.len() && c.grouped.unwrap()@[k] is None {
        Some("Non-array window group ids"@)
    } else if c.title is None {
        Some("Non-string window title"@)
    } else if c.app_name is None {
        Some("Non-string window initialTitle"@)
    } else {
        None
    }
}

/// The record built from fully present raw fields.
pub open spec fn record_of(c: RawClient, active_address: String) -> WindowData {
    WindowData {
        title: c.title.unwrap(),
        app_name: c.app_name.unwrap(),
        active: c.address.unwrap()@ == active_address@,
        group_index: group_index_of(c.address.unwrap()@, grouped_views(c.grouped.unwrap()@)),
    }
}

proof fn lemma_rank_bounds(addr: Seq<char>, grouped: Seq<Seq<char>>)
    ensures
        -1 <= rank_in_group(addr, grouped) < grouped.len(),
    decreases grouped.len(),
{
    if grouped.len() > 0 {
        lemma_rank_bounds(addr, grouped.skip(1));
    }
}

proof fn lemma_rank_first_match(addr: Seq<char>, grouped: Seq<Seq<char>>, j: int)
    requires
        0 <= j < grouped.len(),
        grouped[j] == addr,
        forall|k: int| 0 <= k < j ==> grouped[k] != addr,
    ensures
        rank_in_group(addr, grouped) == j,
    decreases j,
{
    if j > 0 {
        assert(grouped.skip(1)[j - 1] == addr);
        assert(forall|k: int| 0 <= k < j - 1 ==> grouped.skip(1)[k] != addr);
        lemma_rank_first_match(addr, grouped.skip(1), j - 1);
    }
}

proof fn lemma_rank_no_match(addr: Seq<char>, grouped: Seq<Seq<char>>)
    requires
        forall|k: int| 0 <= k < grouped.len() ==> grouped[k] != addr,
    ensures
        rank_in_group(addr, grouped) == -1,
    decreases grouped.len(),
{
    if grouped.len() > 0 {
        assert(forall|k: int| 0 <= k < grouped.len() - 1 ==> grouped.skip(1)[k] != addr);
        lemma_rank_no_match(addr, grouped.skip(1));
    }
}

impl WindowData {
    /// Build one record from raw per-window fields. Fails exactly on the
    /// first absent or mistyped field; a window whose own address is not
    /// in its group list is not an error and gets the sentinel rank.
    pub fn from_raw(c: RawClient, active_address: &String) -> (r: Result<WindowData, Error>)
        ensures
            r is Ok <==> client_parse_error(c) is None,
            r matches Err(e) ==> e matches Error::WindowDataParsing(m)
                && m@ == client_parse_error(c).unwrap(),
            r matches Ok(w) ==> w == record_of(c, *active_address),
    {
        let address = match c.address {
            Some(a) => a,
            None => {
                return Err(Error::WindowDataParsing("Non-string window address"));
            },
        };
        let grouped = match c.grouped {
            Some(g) => g,
            None => {
                return Err(Error::WindowDataParsing("Non-array window group ids"));
            },
        };
        let mut k: usize = 0;
        while k < grouped.len()
            invariant
                k <= grouped.len(),
                c.address is Some,
                c.grouped == Some(grouped),
                forall|i: int| 0 <= i < k ==> grouped@[i] is Some,
            decreases grouped.len() - k,
        {
            if grouped[k].is_none() {
                proof {
                    assert(0 <= k < c.grouped.unwrap()@.len()
                        && c.grouped.unwrap()@[k as int] is None);
                }
                return Err(Error::WindowDataParsing("Non-array window group ids"));
            }
            k += 1;
        }
        let ghost gviews = grouped_views(grouped@);
        let mut j: usize = 0;
        let mut rank: usize = UNRANKED;
        let mut found = false;
        while j < grouped.len() && !found
            invariant
                j <= grouped.len(),
                forall|i: int| 0 <= i < grouped@.len() ==> grouped@[i] is Some,
                gviews == grouped_views(grouped@),
                !found ==> rank == UNRANKED,
                !found ==> forall|i: int| 0 <= i < j ==> gviews[i] != address@,
                found ==> rank == group_index_of(address@, gviews),
            decreases grouped.len() - j, (if found { 0int } else { 1int }),
        {
            let matched = match &grouped[j] {
                Some(member) => address.eq(member),
                None => false,
            };
            if matched {
                rank = j;
                found = true;
                proof {
                    lemma_rank_first_match(address@, gviews, j as int);
                    lemma_rank_bounds(address@, gviews);
                }
            } else {
                j += 1;
            }
        }
        proof {
            if !found {
                lemma_rank_no_match(address@, gviews);
            }
            assert(rank == group_index_of(address@, gviews));
        }
        let title = match c.title {
            Some(t) => t,
            None => {
                return Err(Error::WindowDataParsing("Non-string window title"));
            },
        };
        let app_name = match c.app_name {
            Some(a) => a,
            None => {
                return Err(Error::WindowDataParsing("Non-string window initialTitle"));
            },
        };
        let active = address.eq(active_address);
        Ok(WindowData { title, app_name, active, group_index: rank })
    }
}

/// Ascending group rank throughout the sequence.
pub open spec fn sorted_by_rank(s: Seq<WindowData>) -> bool {
    forall|i: int, j: int| 0 <= i <= j < s.len() ==> s[i].group_index <= s[j].group_index
}

/// `w` placed behind every element whose rank is at most `w`'s, so that
/// an element inserted later never overtakes an equal-ranked earlier one.
pub open spec fn insert_by_rank(s: Seq<WindowData>, w: WindowData) -> Seq<WindowData>
    decreases s.len(),
{
    if s.len() == 0 {
        seq![w]
    } else if s.last().group_index <= w.group_index {
        s.push(w)
    } else {
        insert_by_rank(s.drop_last(), w).push(s.last())
    }
}

/// Stable sort by ascending group rank: equal ranks keep the input order.
pub open spec fn sort_by_rank(s: Seq<WindowData>) -> Seq<WindowData>
    decreases s.len(),
{
    if s.len() == 0 {
        Seq::empty()
    } else {
        insert_by_rank(sort_by_rank(s.drop_last()), s.last())
    }
}

proof fn lemma_insert_by_rank_at(s: Seq<WindowData>, w: WindowData, j: int)
    requires
        0 <= j <= s.len(),
        j == 0 || s[j - 1].group_index <= w.group_index,
        forall|k: int| j <= k < s.len() ==> s[k].group_index > w.group_index,
    ensures
        insert_by_rank(s, w) == s.insert(j, w),
    decreases s.len(),
{
    if s.len() == 0 {
        assert(insert_by_rank(s, w) =~= s.insert(0, w));
    } else if j == s.len() {
        assert(s.push(w) =~= s.insert(j, w));
    } else {
        assert(s[s.len() - 1].group_index > w.group_index);
        lemma_insert_by_rank_at(s.drop_last(), w, j);
        assert(s.drop_last().insert(j, w).push(s.last()) =~= s.insert(j, w));
    }
}

proof fn lemma_insert_by_rank_ensures(s: Seq<WindowData>, w: WindowData)
    requires
        sorted_by_rank(s),
    ensures
        sorted_by_rank(insert_by_rank(s, w)),
        insert_by_rank(s, w).to_multiset() == s.to_multiset().insert(w),
        insert_by_rank(s, w).len() == s.len() + 1,
    decreases s.len(),
{
    broadcast use vstd::seq_lib::group_to_multiset_ensures;

    if s.len() == 0 {
        assert(Seq::<WindowData>::empty().push(w) =~= seq![w]);
        assert(seq![w].to_multiset() =~= s.to_multiset().insert(w));
    } else if s.last().group_index <= w.group_index {
        assert(forall|i: int| 0 <= i < s.len() ==> s[i].group_index <= w.group_index);
    } else {
        assert(sorted_by_rank(s.drop_last()));
        lemma_insert_by_rank_ensures(s.drop_last(), w);
        let t = insert_by_rank(s.drop_last(), w);
        assert(forall|i: int| 0 <= i < t.len() ==> t.to_multiset().contains(t[i]));
        assert forall|i: int| 0 <= i < t.len() implies t[i].group_index
            <= s.last().group_index by {
            assert(t.to_multiset().contains(t[i]));
            let m = s.drop_last().to_multiset().insert(w);
            if s.drop_last().to_multiset().contains(t[i]) {
                let idx = choose|idx: int|
                    0 <= idx < s.drop_last().len() && s.drop_last()[idx] == t[i];
                assert(s[idx].group_index <= s.last().group_index);
            }
        }
        assert(s.drop_last().push(s.last()) =~= s);
        assert(t.push(s.last()).to_multiset() =~= s.to_multiset().insert(w));
    }
}

proof fn lemma_sort_by_rank_ensures(s: Seq<WindowData>)
    ensures
        sorted_by_rank(sort_by_rank(s)),
        sort_by_rank(s).to_multiset() == s.to_multiset(),
        sort_by_rank(s).len() == s.len(),
    decreases s.len(),
{
    broadcast use vstd::seq_lib::group_to_multiset_ensures;

    if s.len() > 0 {
        lemma_sort_by_rank_ensures(s.drop_last());
        lemma_insert_by_rank_ensures(sort_by_rank(s.drop_last()), s.last());
        assert(s.drop_last().push(s.last()) =~= s);
        assert(sort_by_rank(s).to_multiset() =~= s.to_multiset());
    }
}

/// Clients whose workspace id matches the active workspace, fetch order kept.
pub open spec fn kept_clients(cs: Seq<RawClient>, ws_id: i64) -> Seq<RawClient> {
    cs.filter(|c: RawClient| c.workspace_id == Some(ws_id))
}

/// The message of the first malformed client record, if any.
pub open spec fn first_client_error(cs: Seq<RawClient>) -> Option<Seq<char>>
    decreases cs.len(),
{
    if cs.len() == 0 {
        None
    } else if client_parse_error(cs[0]) is Some {
        client_parse_error(cs[0])
    } else {
        first_client_error(cs.skip(1))
    }
}

/// The records of fully validated clients, in order.
pub open spec fn records_of(cs: Seq<RawClient>, active_address: String) -> Seq<WindowData> {
    cs.map_values(|c: RawClient| record_of(c, active_address))
}

proof fn lemma_first_client_error_at(cs: Seq<RawClient>, j: int)
    requires
        0 <= j < cs.len(),
        client_parse_error(cs[j]) is Some,
        forall|k: int| 0 <= k < j ==> client_parse_error(#[trigger] cs[k]) is None,
    ensures
        first_client_error(cs) == client_parse_error(cs[j]),
    decreases j,
{
    if j > 0 {
        assert(forall|k: int| 0 <= k < j - 1
            ==> client_parse_error(#[trigger] cs.skip(1)[k]) is None);
        assert(cs.skip(1)[j - 1] == cs[j]);
        lemma_first_client_error_at(cs.skip(1), j - 1);
    }
}

proof fn lemma_first_client_error_none(cs: Seq<RawClient>)
    requires
        forall|k: int| 0 <= k < cs.len() ==> client_parse_error(#[trigger] cs[k]) is None,
    ensures
        first_client_error(cs) is None,
    decreases cs.len(),
{
    if cs.len() > 0 {
        assert(forall|k: int| 0 <= k < cs.len() - 1
            ==> client_parse_error(#[trigger] cs.skip(1)[k]) is None);
        lemma_first_client_error_none(cs.skip(1));
    }
}

fn insert_sorted(out: &mut Vec<WindowData>, w: WindowData)
    ensures
        final(out)@ == insert_by_rank(old(out)@, w),
{
    let mut j: usize = out.len();
    while j > 0 && out[j - 1].group_index > w.group_index
        invariant
            j <= out.len(),
            out == old(out),
            forall|k: int| j <= k < out@.len() ==> out@[k].group_index > w.group_index,
        decreases j,
    {
        j -= 1;
    }
    proof {
        lemma_insert_by_rank_at(out@, w, j as int);
    }
    out.insert(j, w);
}

/// Everything the snapshot builder promises of its result, for every
/// combination of raw inputs: which error comes on which malformed
/// input, and the exact sorted record list on well-formed input.
pub open spec fn snapshot_contract(
    workspace: RawWorkspace,
    clients: Option<Vec<RawClient>>,
    r: Result<Vec<WindowData>, Error>,
) -> bool {
    &&& workspace.id is None ==> (r matches Err(e) && e matches Error::DataFetch(m)
        && m@ == "Cannot get id from workspace data"@)
    &&& workspace.id is Some && workspace.last_window is None ==> (r matches Err(e)
        && e matches Error::DataFetch(m)
        && m@ == "Cannot get active window address from workspace data"@)
    &&& workspace.id is Some && workspace.last_window is Some && clients is None ==> (
    r matches Err(e) && e matches Error::DataFetch(m)
        && m@ == "Cannot convert hyprctl clients output as array"@)
    &&& (workspace.id is Some && workspace.last_window is Some && clients is Some) ==> ({
        let kept = kept_clients(clients.unwrap()@, workspace.id.unwrap());
        &&& (first_client_error(kept) matches Some(m0) ==> (r matches Err(e)
            && e matches Error::WindowDataParsing(m) && m@ == m0))
        &&& (first_client_error(kept) is None ==> (r matches Ok(v)
            && v@ == sort_by_rank(records_of(kept, workspace.last_window.unwrap()))))
    })
}

impl WindowData {
    /// The whole snapshot step: join the two query results on the workspace
    /// id, keep the active workspace's clients in fetch order, validate each
    /// into a record, and stable-sort by group rank. One malformed record
    /// aborts the batch; a self-absent group list does not.
    pub fn build_active_windows(workspace: RawWorkspace, clients: Option<Vec<RawClient>>) -> (r:
        Result<Vec<WindowData>, Error>)
        ensures
            snapshot_contract(workspace, clients, r),
            r matches Ok(v) ==> sorted_by_rank(v@),
    {
        let ws_id = match workspace.id {
            Some(i) => i,
            None => {
                return Err(Error::DataFetch("Cannot get id from workspace data"));
            },
        };
        let active_address = match workspace.last_window {
            Some(a) => a,
            None => {
                return Err(Error::DataFetch("Cannot get active window address from workspace data"));
            },
        };
        let mut remaining = match clients {
            Some(cs) => cs,
            None => {
                return Err(Error::DataFetch("Cannot convert hyprctl clients output as array"));
            },
        };
        let ghost all = remaining@;
        let ghost pred = |c: RawClient| c.workspace_id == Some(ws_id);
        let mut out: Vec<WindowData> = Vec::new();
        let ghost i: int = 0;
        while remaining.len() > 0
            invariant
                0 <= i <= all.len(),
                workspace.id == Some(ws_id),
                workspace.last_window == Some(active_address),
                clients is Some && clients.unwrap()@ == all,
                remaining@ == all.skip(i),
                out@ == sort_by_rank(records_of(kept_clients(all.take(i), ws_id), active_address)),
                forall|k: int| 0 <= k < kept_clients(all.take(i), ws_id).len()
                    ==> client_parse_error(#[trigger] kept_clients(all.take(i), ws_id)[k]) is None,
            decreases remaining.len(),
        {
            let c = remaining.remove(0);
            proof {
                assert(c == all[i]);
                assert(all.skip(i).remove(0) =~= all.skip(i + 1));
            }
            let ghost kept_old = kept_clients(all.take(i), ws_id);
            proof {
                reveal(Seq::filter);
                assert(all.take(i + 1).drop_last() =~= all.take(i));
                assert(all.take(i + 1).last() == c);
            }
            let keep = match &c.workspace_id {
                Some(w) => *w == ws_id,
                None => false,
            };
            if keep {
                let ghost kept_new = kept_clients(all.take(i + 1), ws_id);
                proof {
                    assert(kept_new == kept_old.push(c));
                }
                match WindowData::from_raw(c, &active_address) {
                    Ok(w) => {
                        proof {
                            let old_records = records_of(kept_old, active_address);
                            let new_records = records_of(kept_new, active_address);
                            assert(new_records =~= old_records.push(w));
                            assert(new_records.drop_last() =~= old_records);
                        }
                        insert_sorted(&mut out, w);
                    },
                    Err(e) => {
                        proof {
                            let kept_all = kept_clients(all, ws_id);
                            assert(all.take(i + 1) + all.skip(i + 1) =~= all);
                            Seq::filter_distributes_over_add(
                                all.take(i + 1),
                                all.skip(i + 1),
                                pred,
                            );
                            assert(kept_all == kept_new + kept_clients(all.skip(i + 1), ws_id));
                            assert(kept_all[kept_old.len() as int] == c);
                            assert(forall|k: int| 0 <= k < kept_old.len()
                                ==> kept_all[k] == kept_old[k]);
                            lemma_first_client_error_at(kept_all, kept_old.len() as int);
                        }
                        return Err(e);
                    },
                }
                proof {
                    i = i + 1;
                }
            } else {
                proof {
                    assert(kept_clients(all.take(i + 1), ws_id) == kept_old);
                    i = i + 1;
                }
            }
        }
        proof {
            assert(all.take(i) =~= all);
            lemma_first_client_error_none(kept_clients(all, ws_id));
            lemma_sort_by_rank_ensures(records_of(kept_clients(all, ws_id), active_address));
        }
        Ok(out)
    }
}

/// The windows carrying exactly this rank.
pub open spec fn has_rank(rank: usize) -> spec_fn(WindowData) -> bool {
    |w: WindowData| w.group_index == rank
}

proof fn lemma_insert_by_rank_filter(t: Seq<WindowData>, w: WindowData, rank: usize)
    ensures
        w.group_index == rank ==> insert_by_rank(t, w).filter(has_rank(rank)) == t.filter(
            has_rank(rank),
        ).push(w),
        w.group_index != rank ==> insert_by_rank(t, w).filter(has_rank(rank)) == t.filter(
            has_rank(rank),
        ),
    decreases t.len(),
{
    reveal(Seq::filter);
    let p = has_rank(rank);
    if t.len() == 0 {
        assert(seq![w].drop_last() =~= Seq::<WindowData>::empty());
        assert(t.filter(p) =~= Seq::<WindowData>::empty());
        assert(seq![w].last() == w);
    } else if t.last().group_index <= w.group_index {
        assert(t.push(w).drop_last() =~= t);
        assert(t.push(w).last() == w);
    } else {
        lemma_insert_by_rank_filter(t.drop_last(), w, rank);
        let u = insert_by_rank(t.drop_last(), w);
        assert(u.push(t.last()).drop_last() =~= u);
        assert(u.push(t.last()).last() == t.last());
        assert(t.drop_last().push(t.last()).drop_last() =~= t.drop_last());
        assert(t.drop_last().push(t.last()) =~= t);
        if w.group_index == rank {
            // the peeled-off last has a greater rank, so neither side keeps it
            assert(!p(t.last()));
        }
    }
}

/// Law: the sort is stable. For every rank, the windows carrying that
/// rank come out in exactly their fetch order.
pub proof fn lemma_sort_by_rank_stable(s: Seq<WindowData>, rank: usize)
    ensures
        sort_by_rank(s).filter(has_rank(rank)) == s.filter(has_rank(rank)),
    decreases s.len(),
{
    reveal(Seq::filter);
    let p = has_rank(rank);
    if s.len() == 0 {
        assert(sort_by_rank(s).filter(p) =~= Seq::<WindowData>::empty());
        assert(s.filter(p) =~= Seq::<WindowData>::empty());
    } else {
        lemma_sort_by_rank_stable(s.drop_last(), rank);
        lemma_insert_by_rank_filter(sort_by_rank(s.drop_last()), s.last(), rank);
        assert(s.drop_last().push(s.last()) =~= s);
        assert(s.drop_last().push(s.last()).drop_last() =~= s.drop_last());
    }
}

/// Law: rank-sorting terminates with a permutation in ascending rank
/// order, and every window carrying the sentinel rank stands after
/// every genuinely ranked one.
pub proof fn lemma_unranked_sort_last(s: Seq<WindowData>)
    ensures
        sorted_by_rank(sort_by_rank(s)),
        sort_by_rank(s).to_multiset() == s.to_multiset(),
        sort_by_rank(s).len() == s.len(),
        forall|i: int, j: int|
            0 <= i < sort_by_rank(s).len() && 0 <= j < sort_by_rank(s).len()
                && sort_by_rank(s)[i].group_index == UNRANKED
                && sort_by_rank(s)[j].group_index < UNRANKED ==> j < i,
{
    lemma_sort_by_rank_ensures(s);
}

/// How many records of the snapshot are marked active.
pub open spec fn active_count(s: Seq<WindowData>) -> int
    decreases s.len(),
{
    if s.len() == 0 {
        0
    } else {
        active_count(s.drop_last()) + if s.last().active { 1int } else { 0 }
    }
}

proof fn lemma_insert_by_rank_active_count(t: Seq<WindowData>, w: WindowData)
    ensures
        active_count(insert_by_rank(t, w)) == active_count(t) + if w.active { 1int } else { 0 },
    decreases t.len(),
{
    if t.len() == 0 {
        assert(seq![w].drop_last() =~= Seq::<WindowData>::empty());
        assert(seq![w].last() == w);
        assert(active_count(Seq::<WindowData>::empty()) == 0);
        assert(active_count(t) == 0);
    } else if t.last().group_index <= w.group_index {
        assert(t.push(w).drop_last() =~= t);
        assert(t.push(w).last() == w);
    } else {
        lemma_insert_by_rank_active_count(t.drop_last(), w);
        let u = insert_by_rank(t.drop_last(), w);
        assert(u.push(t.last()).drop_last() =~= u);
        assert(u.push(t.last()).last() == t.last());
    }
}

proof fn lemma_active_count_nonneg(s: Seq<WindowData>)
    ensures
        active_count(s) >= 0,
    decreases s.len(),
{
    if s.len() > 0 {
        lemma_active_count_nonneg(s.drop_last());
    }
}

proof fn lemma_sort_by_rank_active_count(s: Seq<WindowData>)
    ensures
        active_count(sort_by_rank(s)) == active_count(s),
    decreases s.len(),
{
    if s.len() > 0 {
        lemma_sort_by_rank_active_count(s.drop_last());
        lemma_insert_by_rank_active_count(sort_by_rank(s.drop_last()), s.last());
    }
}

proof fn lemma_records_active_count(cs: Seq<RawClient>, aa: String)
    requires
        forall|i: int, j: int| 0 <= i < j < cs.len()
            ==> cs[i].address.unwrap()@ != cs[j].address.unwrap()@,
    ensures
        active_count(records_of(cs, aa)) <= 1,
        (forall|k: int| 0 <= k < cs.len() ==> cs[k].address.unwrap()@ != aa@)
            ==> active_count(records_of(cs, aa)) == 0,
    decreases cs.len(),
{
    if cs.len() > 0 {
        lemma_records_active_count(cs.drop_last(), aa);
        let rs = records_of(cs, aa);
        assert(rs.drop_last() =~= records_of(cs.drop_last(), aa));
        assert(rs.last() == record_of(cs.last(), aa));
        if cs.last().address.unwrap()@ == aa@ {
            assert(forall|k: int| 0 <= k < cs.len() - 1
                ==> cs.drop_last()[k].address.unwrap()@ != aa@);
        }
    }
}

proof fn lemma_two_active_means_count_two(s: Seq<WindowData>, i: int, j: int)
    requires
        0 <= i < j < s.len(),
        s[i].active,
        s[j].active,
    ensures
        active_count(s) >= 2,
    decreases s.len(),
{
    if j == s.len() - 1 {
        lemma_one_active_means_count_one(s.drop_last(), i);
    } else {
        lemma_two_active_means_count_two(s.drop_last(), i, j);
    }
}

proof fn lemma_one_active_means_count_one(s: Seq<WindowData>, i: int)
    requires
        0 <= i < s.len(),
        s[i].active,
    ensures
        active_count(s) >= 1,
    decreases s.len(),
{
    if i < s.len() - 1 {
        lemma_one_active_means_count_one(s.drop_last(), i);
    } else {
        lemma_active_count_nonneg(s.drop_last());
    }
}

/// Law: a snapshot built from clients with pairwise distinct addresses
/// marks at most one window active; none when no address matches the
/// workspace's active window address.
pub proof fn lemma_at_most_one_active(cs: Seq<RawClient>, active_address: String)
    requires
        forall|i: int, j: int| 0 <= i < j < cs.len()
            ==> cs[i].address.unwrap()@ != cs[j].address.unwrap()@,
    ensures
        ({
            let out = sort_by_rank(records_of(cs, active_address));
            forall|i: int, j: int| 0 <= i < j < out.len() ==> !(out[i].active && out[j].active)
        }),
{
    let out = sort_by_rank(records_of(cs, active_address));
    lemma_records_active_count(cs, active_address);
    lemma_sort_by_rank_active_count(records_of(cs, active_address));
    assert forall|i: int, j: int| 0 <= i < j < out.len() implies !(out[i].active
        && out[j].active) by {
        if out[i].active && out[j].active {
            lemma_two_active_means_count_two(out, i, j);
        }
    }
}

/// Law: one refresh is a function of its raw inputs alone. The builder's
/// contract pins the outcome, so two results for the same raw data agree:
/// same success, the same windows, or the same error message.
pub proof fn lemma_snapshot_deterministic(
    workspace: RawWorkspace,
    clients: Option<Vec<RawClient>>,
    r1: Result<Vec<WindowData>, Error>,
    r2: Result<Vec<WindowData>, Error>,
)
    requires
        snapshot_contract(workspace, clients, r1),
        snapshot_contract(workspace, clients, r2),
    ensures
        r1 is Ok <==> r2 is Ok,
        r1 matches Ok(v1) ==> (r2 matches Ok(v2) && v1@ == v2@),
        r1 matches Err(e1) ==> (r2 matches Err(e2)
            && crate::error::error_message(e1) == crate::error::error_message(e2)),
{
}

} // verus!
