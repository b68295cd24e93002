//! The query-parameter grammar: `include`, `sort`, `fields[..]` and `filter[..]`.
//!
//! Entries are separated by `&` and split on their first `=`. Anything that
//! matches none of the recognised shapes is dropped without an error.
use vstd::prelude::*;
use vstd::string::*;
use crate::uri::Uri;
use crate::text::{
    find_char, index_of, is_token, join, join_str, lemma_index_of_bounds, owned, slice_of, split_on, split_str,
    token, views,
};

verus! {

#[derive(Debug, Clone, Copy, PartialEq, Eq, Structural)]
pub enum SortDirection {
    Ascending,
    Descending,
}

#[derive(Debug, Clone, PartialEq, Eq)]
pub struct SortingField {
    pub field: String,
    pub direction: SortDirection,
}

/// Per type, the names of the attributes to emit; parsing never repeats a key.
pub type FieldsParameters = Vec<(String, Vec<String>)>;

pub type IncludeParameters = Vec<String>;

/// Per path, the raw text of the filter value; parsing never repeats a key.
pub type FilterParameters = Vec<(String, String)>;

pub type SortParameters = Vec<SortingField>;

#[derive(Debug, Clone, PartialEq, Eq)]
pub struct Parameters {
    pub fields: Option<FieldsParameters>,
    pub includes: Option<IncludeParameters>,
    pub filter: Option<FilterParameters>,
    pub sort: Option<SortParameters>,
}

/// The mathematical value of a `Parameters`.
pub struct ParametersView {
    pub fields: Option<Seq<(Seq<char>, Seq<Seq<char>>)>>,
    pub includes: Option<Seq<Seq<char>>>,
    pub filter: Option<Seq<(Seq<char>, Seq<char>)>>,
    pub sort: Option<Seq<(Seq<char>, SortDirection)>>,
}

pub open spec fn sort_view(v: Seq<SortingField>) -> Seq<(Seq<char>, SortDirection)> {
    v.map_values(|f: SortingField| (f.field@, f.direction))
}

pub open spec fn fields_view(v: Seq<(String, Vec<String>)>) -> Seq<(Seq<char>, Seq<Seq<char>>)> {
    v.map_values(|p: (String, Vec<String>)| (p.0@, views(p.1@)))
}

pub open spec fn filter_view(v: Seq<(String, String)>) -> Seq<(Seq<char>, Seq<char>)> {
    v.map_values(|p: (String, String)| (p.0@, p.1@))
}

impl View for Parameters {
    type V = ParametersView;

    open spec fn view(&self) -> ParametersView {
        ParametersView {
            fields: match self.fields {
                Some(f) => Some(fields_view(f@)),
                None => None,
            },
            includes: match self.includes {
                Some(i) => Some(views(i@)),
                None => None,
            },
            filter: match self.filter {
                Some(f) => Some(filter_view(f@)),
                None => None,
            },
            sort: match self.sort {
                Some(s) => Some(sort_view(s@)),
                None => None,
            },
        }
    }
}

// ---------------------------------------------------------------------------
// Association lists: the first entry with a key is the one that counts, and
// putting a key again replaces its value in place.

/// The position of the first entry whose key is `k`, or -1.
pub open spec fn key_index(keys: Seq<Seq<char>>, k: Seq<char>) -> int
    decreases keys.len(),
{
    if keys.len() == 0 {
        -1
    } else {
        let r = key_index(keys.drop_last(), k);
        if r >= 0 {
            r
        } else if keys.last() == k {
            keys.len() - 1
        } else {
            -1
        }
    }
}

pub open spec fn keys_of<V>(l: Seq<(Seq<char>, V)>) -> Seq<Seq<char>> {
    l.map_values(|p: (Seq<char>, V)| p.0)
}

/// The value stored under `k`, if any.
pub open spec fn lookup<V>(l: Seq<(Seq<char>, V)>, k: Seq<char>) -> Option<V> {
    let i = key_index(keys_of(l), k);
    if i >= 0 {
        Some(l[i].1)
    } else {
        None
    }
}

/// `l` with `k` bound to `v`: in place when `k` is present, else appended.
pub open spec fn put<V>(l: Seq<(Seq<char>, V)>, k: Seq<char>, v: V) -> Seq<(Seq<char>, V)> {
    let i = key_index(keys_of(l), k);
    if i >= 0 {
        l.update(i, (k, v))
    } else {
        l.push((k, v))
    }
}

pub proof fn lemma_key_index_bounds(keys: Seq<Seq<char>>, k: Seq<char>)
    ensures
        -1 <= key_index(keys, k) < keys.len(),
        key_index(keys, k) >= 0 ==> keys[key_index(keys, k)] == k,
    decreases keys.len(),
{
    if keys.len() > 0 {
        lemma_key_index_bounds(keys.drop_last(), k);
    }
}

/// No key occurs twice.
pub open spec fn unique_keys<V>(l: Seq<(Seq<char>, V)>) -> bool {
    forall|i: int, j: int| 0 <= i < j < l.len() ==> l[i].0 != l[j].0
}

pub proof fn lemma_key_index_absent(keys: Seq<Seq<char>>, k: Seq<char>)
    ensures
        key_index(keys, k) < 0 ==> forall|j: int| 0 <= j < keys.len() ==> keys[j] != k,
    decreases keys.len(),
{
    if keys.len() > 0 {
        lemma_key_index_absent(keys.drop_last(), k);
        if key_index(keys, k) < 0 {
            assert forall|j: int| 0 <= j < keys.len() implies keys[j] != k by {
                if j < keys.len() - 1 {
                    assert(keys[j] == keys.drop_last()[j]);
                }
            }
        }
    }
}

/// Putting a key keeps keys unique.
pub proof fn lemma_put_unique<V>(l: Seq<(Seq<char>, V)>, k: Seq<char>, v: V)
    requires
        unique_keys(l),
    ensures
        unique_keys(put(l, k, v)),
{
    let keys = keys_of(l);
    lemma_key_index_bounds(keys, k);
    lemma_key_index_absent(keys, k);
    let t = put(l, k, v);
    let i = key_index(keys, k);
    assert forall|a: int, b: int| 0 <= a < b < t.len() implies t[a].0 != t[b].0 by {
        if i >= 0 {
            assert(keys[i] == l[i].0);
        } else {
            if b == l.len() {
                assert(keys[a] == l[a].0);
            }
        }
    }
}

/// The parsed `fields` and `filter` lists never hold a key twice.
pub proof fn lemma_read_entries_unique(es: Seq<Seq<char>>)
    ensures
        unique_keys(read_entries(es).fields),
        unique_keys(read_entries(es).filter),
    decreases es.len(),
{
    if es.len() > 0 {
        let st = read_entries(es.drop_last());
        lemma_read_entries_unique(es.drop_last());
        let e = es.last();
        let i = index_of(e, '=');
        if i >= 0 {
            let key = e.take(i);
            let value = e.skip(i + 1);
            if let Some((name, segs)) = family_key(key) {
                lemma_put_unique(st.fields, join(segs, '.'), split_on(value, ','));
                lemma_put_unique(st.filter, join(segs, '.'), value);
            }
        }
    }
}

/// The exec keys of a list, as character sequences.
pub open spec fn exec_keys<V>(l: Seq<(String, V)>) -> Seq<Seq<char>> {
    l.map_values(|p: (String, V)| p.0@)
}

/// Position of the first entry keyed `k`.
fn key_position<V>(l: &Vec<(String, V)>, k: &String) -> (r: Option<usize>)
    ensures
        match r {
            Some(i) => i == key_index(exec_keys(l@), k@),
            None => key_index(exec_keys(l@), k@) == -1,
        },
{
    let mut r: Option<usize> = None;
    let mut i: usize = 0;
    while i < l.len()
        invariant
            i <= l@.len(),
            match r {
                Some(j) => j == key_index(exec_keys(l@).take(i as int), k@),
                None => key_index(exec_keys(l@).take(i as int), k@) == -1,
            },
        decreases l@.len() - i,
    {
        assert(exec_keys(l@).take(i + 1).drop_last() =~= exec_keys(l@).take(i as int));
        if r.is_none() && l[i].0 == *k {
            r = Some(i);
        }
        i = i + 1;
    }
    assert(exec_keys(l@).take(l@.len() as int) =~= exec_keys(l@));
    r
}

/// Binds `k` to `v`, replacing the value of the first entry keyed `k`, if any.
fn put_pair<V>(l: &mut Vec<(String, V)>, k: String, v: V)
    ensures
        ({
            let i = key_index(exec_keys(old(l)@), k@);
            if i >= 0 {
                final(l)@ == old(l)@.update(i, (k, v))
            } else {
                final(l)@ == old(l)@.push((k, v))
            }
        }),
{
    match key_position(l, &k) {
        Some(i) => {
            proof {
                lemma_key_index_bounds(exec_keys(l@), k@);
            }
            l.set(i, (k, v));
        },
        None => {
            l.push((k, v));
        },
    }
}

pub proof fn lemma_put_fields(l: Seq<(String, Vec<String>)>, k: String, v: Vec<String>)
    ensures
        ({
            let i = key_index(exec_keys(l), k@);
            let after = if i >= 0 {
                l.update(i, (k, v))
            } else {
                l.push((k, v))
            };
            fields_view(after) == put(fields_view(l), k@, views(v@))
        }),
{
    assert(keys_of(fields_view(l)) =~= exec_keys(l));
    lemma_key_index_bounds(exec_keys(l), k@);
    let i = key_index(exec_keys(l), k@);
    if i >= 0 {
        assert(fields_view(l.update(i, (k, v))) =~= fields_view(l).update(i, (k@, views(v@))));
    } else {
        assert(fields_view(l.push((k, v))) =~= fields_view(l).push((k@, views(v@))));
    }
}

pub proof fn lemma_put_filter(l: Seq<(String, String)>, k: String, v: String)
    ensures
        ({
            let i = key_index(exec_keys(l), k@);
            let after = if i >= 0 {
                l.update(i, (k, v))
            } else {
                l.push((k, v))
            };
            filter_view(after) == put(filter_view(l), k@, v@)
        }),
{
    assert(keys_of(filter_view(l)) =~= exec_keys(l));
    lemma_key_index_bounds(exec_keys(l), k@);
    let i = key_index(exec_keys(l), k@);
    if i >= 0 {
        assert(filter_view(l.update(i, (k, v))) =~= filter_view(l).update(i, (k@, v@)));
    } else {
        assert(filter_view(l.push((k, v))) =~= filter_view(l).push((k@, v@)));
    }
}

// ---------------------------------------------------------------------------
// The grammar.

/// One `sort` entry: `-field` sorts descending, `field` ascending; anything
/// that is not a token after the optional `-` is dropped.
pub open spec fn sort_entry(e: Seq<char>) -> Option<(Seq<char>, SortDirection)> {
    if e.len() > 0 && e[0] == '-' && is_token(e.drop_first()) {
        Some((e.drop_first(), SortDirection::Descending))
    } else if is_token(e) {
        Some((e, SortDirection::Ascending))
    } else {
        None
    }
}

/// The recognised entries of a `sort` value, in order.
pub open spec fn sort_entries(es: Seq<Seq<char>>) -> Seq<(Seq<char>, SortDirection)>
    decreases es.len(),
{
    if es.len() == 0 {
        Seq::empty()
    } else {
        let rest = sort_entries(es.drop_last());
        match sort_entry(es.last()) {
            Some(f) => rest.push(f),
            None => rest,
        }
    }
}

/// The value of `sort=...`.
pub open spec fn sort_of(value: Seq<char>) -> Seq<(Seq<char>, SortDirection)> {
    sort_entries(split_on(value, ','))
}

/// Where a scan of a parameter-family key `name[seg][seg]...` stands.
pub enum KeyScan {
    /// Reading the leading name.
    Name(Seq<char>),
    /// Inside a bracket: the name, the closed segments, the open one.
    Segment(Seq<char>, Seq<Seq<char>>, Seq<char>),
    /// Just after a closing bracket: the name and the segments.
    Closed(Seq<char>, Seq<Seq<char>>),
    Rejected,
}

pub open spec fn scan_step(st: KeyScan, c: char) -> KeyScan {
    match st {
        KeyScan::Name(n) => if c == '[' {
            if is_token(n) {
                KeyScan::Segment(n, Seq::empty(), Seq::empty())
            } else {
                KeyScan::Rejected
            }
        } else {
            KeyScan::Name(n.push(c))
        },
        KeyScan::Segment(n, segs, cur) => if c == ']' {
            if is_token(cur) {
                KeyScan::Closed(n, segs.push(cur))
            } else {
                KeyScan::Rejected
            }
        } else {
            KeyScan::Segment(n, segs, cur.push(c))
        },
        KeyScan::Closed(n, segs) => if c == '[' {
            KeyScan::Segment(n, segs, Seq::empty())
        } else {
            KeyScan::Rejected
        },
        KeyScan::Rejected => KeyScan::Rejected,
    }
}

pub open spec fn scan_key(s: Seq<char>) -> KeyScan
    decreases s.len(),
{
    if s.len() == 0 {
        KeyScan::Name(Seq::empty())
    } else {
        scan_step(scan_key(s.drop_last()), s.last())
    }
}

/// What a scan of `key` found, when it ended just after a closing bracket.
pub open spec fn scanned_key(key: Seq<char>) -> Option<(Seq<char>, Seq<Seq<char>>)> {
    match scan_key(key) {
        KeyScan::Closed(n, segs) => Some((n, segs)),
        _ => None,
    }
}

/// `[seg1][seg2]...`
pub open spec fn bracketed(segs: Seq<Seq<char>>) -> Seq<char>
    decreases segs.len(),
{
    if segs.len() == 0 {
        Seq::empty()
    } else {
        bracketed(segs.drop_last()) + seq!['['] + segs.last() + seq![']']
    }
}

pub open spec fn all_tokens(segs: Seq<Seq<char>>) -> bool {
    forall|i: int| 0 <= i < segs.len() ==> is_token(#[trigger] segs[i])
}

/// `key` is `name[seg1][seg2]...`: a token, then at least one token in brackets.
pub open spec fn family_shape(key: Seq<char>, name: Seq<char>, segs: Seq<Seq<char>>) -> bool {
    &&& is_token(name)
    &&& segs.len() >= 1
    &&& all_tokens(segs)
    &&& key == name + bracketed(segs)
}

/// A key of the shape `name[seg1][seg2]...`: the name and the segments.
pub open spec fn family_key(key: Seq<char>) -> Option<(Seq<char>, Seq<Seq<char>>)> {
    if exists|p: (Seq<char>, Seq<Seq<char>>)| family_shape(key, p.0, p.1) {
        Some(choose|p: (Seq<char>, Seq<Seq<char>>)| family_shape(key, p.0, p.1))
    } else {
        None
    }
}

/// The scan of `t` from the state `st`.
pub open spec fn scan_from(st: KeyScan, t: Seq<char>) -> KeyScan
    decreases t.len(),
{
    if t.len() == 0 {
        st
    } else {
        scan_step(scan_from(st, t.drop_last()), t.last())
    }
}

/// What each scan state says of the text read so far.
pub proof fn lemma_scan_sound(s: Seq<char>)
    ensures
        match scan_key(s) {
            KeyScan::Name(n) => n == s,
            KeyScan::Segment(n, segs, cur) => is_token(n) && all_tokens(segs) && s == n + bracketed(segs)
                + seq!['['] + cur,
            KeyScan::Closed(n, segs) => family_shape(s, n, segs),
            KeyScan::Rejected => true,
        },
    decreases s.len(),
{
    if s.len() > 0 {
        let t = s.drop_last();
        let c = s.last();
        lemma_scan_sound(t);
        assert(s =~= t.push(c));
        match scan_key(t) {
            KeyScan::Name(n) => {
                if c == '[' && is_token(n) {
                    assert(bracketed(Seq::<Seq<char>>::empty()) == Seq::<char>::empty());
                    assert(s =~= n + bracketed(Seq::<Seq<char>>::empty()) + seq!['['] + Seq::<char>::empty());
                    assert(all_tokens(Seq::<Seq<char>>::empty()));
                }
            },
            KeyScan::Segment(n, segs, cur) => {
                if c == ']' {
                    if is_token(cur) {
                        let segs2 = segs.push(cur);
                        assert(segs2.drop_last() =~= segs);
                        assert(s =~= n + bracketed(segs2));
                        assert forall|i: int| 0 <= i < segs2.len() implies is_token(#[trigger] segs2[i]) by {
                            if i < segs.len() {
                                assert(segs2[i] == segs[i]);
                            }
                        }
                    }
                } else {
                    assert(s =~= n + bracketed(segs) + seq!['['] + cur.push(c));
                }
            },
            KeyScan::Closed(n, segs) => {
                if c == '[' {
                    assert(s =~= n + bracketed(segs) + seq!['['] + Seq::<char>::empty());
                }
            },
            KeyScan::Rejected => {},
        }
    }
}

pub proof fn lemma_scan_concat(st: KeyScan, a: Seq<char>, b: Seq<char>)
    ensures
        scan_from(st, a + b) == scan_from(scan_from(st, a), b),
    decreases b.len(),
{
    if b.len() == 0 {
        assert(a + b =~= a);
    } else {
        lemma_scan_concat(st, a, b.drop_last());
        assert((a + b).drop_last() =~= a + b.drop_last());
    }
}

pub proof fn lemma_scan_key_from(s: Seq<char>)
    ensures
        scan_key(s) == scan_from(KeyScan::Name(Seq::empty()), s),
    decreases s.len(),
{
    if s.len() > 0 {
        lemma_scan_key_from(s.drop_last());
    }
}

pub proof fn lemma_scan_name(n: Seq<char>)
    requires
        forall|i: int| 0 <= i < n.len() ==> crate::text::is_token_char(#[trigger] n[i]),
    ensures
        scan_key(n) == KeyScan::Name(n),
    decreases n.len(),
{
    if n.len() > 0 {
        let t = n.drop_last();
        assert forall|i: int| 0 <= i < t.len() implies crate::text::is_token_char(#[trigger] t[i]) by {
            assert(t[i] == n[i]);
        }
        lemma_scan_name(t);
        assert(crate::text::is_token_char(n[n.len() - 1]));
        assert(n.last() != '[');
        assert(t.push(n.last()) =~= n);
    } else {
        assert(n =~= Seq::<char>::empty());
    }
}

pub proof fn lemma_scan_segment(n: Seq<char>, segs: Seq<Seq<char>>, cur: Seq<char>, t: Seq<char>)
    requires
        forall|i: int| 0 <= i < t.len() ==> crate::text::is_token_char(#[trigger] t[i]),
    ensures
        scan_from(KeyScan::Segment(n, segs, cur), t) == KeyScan::Segment(n, segs, cur + t),
    decreases t.len(),
{
    if t.len() == 0 {
        assert(cur + t =~= cur);
    } else {
        let u = t.drop_last();
        assert forall|i: int| 0 <= i < u.len() implies crate::text::is_token_char(#[trigger] u[i]) by {
            assert(u[i] == t[i]);
        }
        lemma_scan_segment(n, segs, cur, u);
        assert(crate::text::is_token_char(t[t.len() - 1]));
        assert((cur + u).push(t.last()) =~= cur + t);
    }
}

/// Reading `[seg]` after a name or after a closing bracket closes one more segment.
pub proof fn lemma_scan_group(st: KeyScan, n: Seq<char>, segs: Seq<Seq<char>>, seg: Seq<char>)
    requires
        (st == KeyScan::Name(n) && segs == Seq::<Seq<char>>::empty() && is_token(n)) || st == KeyScan::Closed(n, segs),
        is_token(seg),
    ensures
        scan_from(st, seq!['['] + seg + seq![']']) == KeyScan::Closed(n, segs.push(seg)),
{
    let open = seq!['['];
    assert(open.drop_last() =~= Seq::<char>::empty());
    assert(open.last() == '[');
    assert(scan_from(st, Seq::<char>::empty()) == st);
    assert(scan_from(st, open) == KeyScan::Segment(n, segs, Seq::empty()));
    lemma_scan_concat(st, open, seg);
    lemma_scan_segment(n, segs, Seq::empty(), seg);
    assert(Seq::<char>::empty() + seg =~= seg);
    let close = seq![']'];
    lemma_scan_concat(st, open + seg, close);
    assert(close.drop_last() =~= Seq::<char>::empty());
    assert(close.last() == ']');
    assert(scan_from(KeyScan::Segment(n, segs, seg), Seq::<char>::empty()) == KeyScan::Segment(n, segs, seg));
    assert(scan_from(KeyScan::Segment(n, segs, seg), close) == KeyScan::Closed(n, segs.push(seg)));
}

pub proof fn lemma_scan_bracketed(n: Seq<char>, segs: Seq<Seq<char>>)
    requires
        is_token(n),
        segs.len() >= 1,
        all_tokens(segs),
    ensures
        scan_key(n + bracketed(segs)) == KeyScan::Closed(n, segs),
    decreases segs.len(),
{
    let front = segs.drop_last();
    let seg = segs.last();
    assert(is_token(segs[segs.len() - 1]));
    let group = seq!['['] + seg + seq![']'];
    assert(n + bracketed(segs) =~= (n + bracketed(front)) + group);
    lemma_scan_key_from(n + bracketed(segs));
    lemma_scan_key_from(n + bracketed(front));
    lemma_scan_concat(KeyScan::Name(Seq::empty()), n + bracketed(front), group);
    assert(front.push(seg) =~= segs);
    if front.len() == 0 {
        assert(front =~= Seq::<Seq<char>>::empty());
        assert(bracketed(front) == Seq::<char>::empty());
        assert(n + bracketed(front) =~= n);
        lemma_scan_name(n);
        lemma_scan_key_from(n);
        lemma_scan_group(KeyScan::Name(n), n, front, seg);
    } else {
        assert forall|i: int| 0 <= i < front.len() implies is_token(#[trigger] front[i]) by {
            assert(front[i] == segs[i]);
        }
        lemma_scan_bracketed(n, front);
        lemma_scan_group(KeyScan::Closed(n, front), n, front, seg);
    }
}

/// The scan finds exactly the family-key shape.
pub proof fn lemma_family_key(key: Seq<char>)
    ensures
        family_key(key) == scanned_key(key),
{
    lemma_scan_sound(key);
    if exists|p: (Seq<char>, Seq<Seq<char>>)| family_shape(key, p.0, p.1) {
        let p = choose|p: (Seq<char>, Seq<Seq<char>>)| family_shape(key, p.0, p.1);
        lemma_scan_bracketed(p.0, p.1);
    } else {
        if let KeyScan::Closed(n, segs) = scan_key(key) {
            assert(family_shape(key, (n, segs).0, (n, segs).1));
        }
    }
}

/// What the entries read so far have given.
pub struct QueryState {
    pub fields: Seq<(Seq<char>, Seq<Seq<char>>)>,
    pub includes: Option<Seq<Seq<char>>>,
    pub filter: Seq<(Seq<char>, Seq<char>)>,
    pub sort: Option<Seq<(Seq<char>, SortDirection)>>,
}

/// One `key=value` entry, split on its first `=`. A later `include` or `sort`
/// replaces an earlier one; a later `fields[..]` or `filter[..]` for the same
/// path replaces the earlier value.
pub open spec fn read_entry(st: QueryState, e: Seq<char>) -> QueryState {
    let i = index_of(e, '=');
    if i < 0 {
        st
    } else {
        let key = e.take(i);
        let value = e.skip(i + 1);
        if key == "include"@ {
            QueryState { includes: Some(split_on(value, ',')), ..st }
        } else if key == "sort"@ {
            QueryState { sort: Some(sort_of(value)), ..st }
        } else {
            match family_key(key) {
                Some((name, segs)) => if name == "fields"@ {
                    QueryState { fields: put(st.fields, join(segs, '.'), split_on(value, ',')), ..st }
                } else if name == "filter"@ {
                    QueryState { filter: put(st.filter, join(segs, '.'), value), ..st }
                } else {
                    st
                },
                None => st,
            }
        }
    }
}

pub open spec fn read_entries(es: Seq<Seq<char>>) -> QueryState
    decreases es.len(),
{
    if es.len() == 0 {
        QueryState {
            fields: Seq::empty(),
            includes: None,
            filter: Seq::empty(),
            sort: None,
        }
    } else {
        read_entry(read_entries(es.drop_last()), es.last())
    }
}

/// The parameters that a query string gives.
pub open spec fn query_params(q: Seq<char>) -> ParametersView {
    let st = read_entries(split_on(q, '&'));
    ParametersView {
        fields: if st.fields.len() == 0 {
            None
        } else {
            Some(st.fields)
        },
        includes: st.includes,
        filter: if st.filter.len() == 0 {
            None
        } else {
            Some(st.filter)
        },
        sort: st.sort,
    }
}

/// No parameters at all.
pub open spec fn no_params() -> ParametersView {
    ParametersView { fields: None, includes: None, filter: None, sort: None }
}

/// The allow-list of attribute names for `kind`; `None` means no filtering.
pub open spec fn fields_for_spec(p: ParametersView, kind: Seq<char>) -> Option<Seq<Seq<char>>> {
    match p.fields {
        Some(f) => lookup(f, kind),
        None => None,
    }
}

/// The exec state of a key scan, read against the key's characters.
spec fn scan_abs(
    s: Seq<char>,
    i: int,
    phase: u8,
    name_end: int,
    cur_start: int,
    ranges: Seq<(usize, usize)>,
) -> KeyScan {
    let segs = ranges.map_values(|r: (usize, usize)| s.subrange(r.0 as int, r.1 as int));
    if phase == 0 {
        KeyScan::Name(s.subrange(0, i))
    } else if phase == 1 {
        KeyScan::Segment(s.subrange(0, name_end), segs, s.subrange(cur_start, i))
    } else if phase == 2 {
        KeyScan::Closed(s.subrange(0, name_end), segs)
    } else {
        KeyScan::Rejected
    }
}

impl Default for Parameters {
    fn default() -> (r: Parameters)
        ensures
            r@ == no_params(),
    {
        Parameters { fields: None, includes: None, filter: None, sort: None }
    }
}

impl Parameters {
    /// The parameters given in the query component of `uri`; none without one.
    pub fn new(uri: &Uri) -> (r: Parameters)
        ensures
            r@ == match uri.query_view() {
                Some(q) => query_params(q),
                None => no_params(),
            },
            r@.fields matches Some(f) ==> unique_keys(f),
            r@.filter matches Some(f) ==> unique_keys(f),
    {
        match uri.query() {
            None => Parameters::default(),
            Some(query) => Self::parse_query(query),
        }
    }

    /// The allow-list of attribute names for `kind`, if the query gave one.
    pub fn fields_for(&self, kind: &str) -> (r: Option<&Vec<String>>)
        ensures
            match r {
                Some(v) => fields_for_spec(self@, kind@) == Some(views(v@)),
                None => fields_for_spec(self@, kind@) is None,
            },
    {
        match &self.fields {
            None => None,
            Some(fields) => {
                let k = owned(kind);
                match key_position(fields, &k) {
                    Some(i) => {
                        proof {
                            lemma_key_index_bounds(exec_keys(fields@), k@);
                            assert(keys_of(fields_view(fields@)) =~= exec_keys(fields@));
                        }
                        Some(&fields[i].1)
                    },
                    None => {
                        proof {
                            assert(keys_of(fields_view(fields@)) =~= exec_keys(fields@));
                        }
                        None
                    },
                }
            },
        }
    }

    /// Whether `name` is to be materialised: every name when the query gave no
    /// `include`, else the names it lists.
    pub fn lists(&self, name: &str) -> (r: bool)
        ensures
            r == match self@.includes {
                None => true,
                Some(l) => l.contains(name@),
            },
    {
        match &self.includes {
            None => true,
            Some(list) => {
                let n = owned(name);
                let mut k: usize = 0;
                while k < list.len()
                    invariant
                        k <= list@.len(),
                        n@ == name@,
                        self@.includes == Some(views(list@)),
                        forall|j: int| 0 <= j < k ==> (#[trigger] list@[j])@ != n@,
                    decreases list@.len() - k,
                {
                    if list[k] == n {
                        assert(views(list@)[k as int] == n@);
                        assert(self@.includes == Some(views(list@)));
                        assert(views(list@).contains(name@));
                        return true;
                    }
                    k = k + 1;
                }
                assert forall|j: int| 0 <= j < list@.len() implies views(list@)[j] != n@ by {
                    assert(views(list@)[j] == list@[j]@);
                }
                false
            },
        }
    }

    fn parse_include(value: &str) -> (r: IncludeParameters)
        ensures
            views(r@) == split_on(value@, ','),
    {
        split_str(value, ',')
    }

    fn parse_sort(value: &str) -> (r: SortParameters)
        ensures
            sort_view(r@) == sort_of(value@),
    {
        let entries = split_str(value, ',');
        let mut out: Vec<SortingField> = Vec::new();
        let mut k: usize = 0;
        while k < entries.len()
            invariant
                k <= entries@.len(),
                views(entries@) == split_on(value@, ','),
                sort_view(out@) == sort_entries(views(entries@).take(k as int)),
            decreases entries@.len() - k,
        {
            let e = entries[k].as_str();
            let ghost es = views(entries@);
            assert(es.take(k + 1).drop_last() =~= es.take(k as int));
            assert(es.take(k + 1).last() == e@);
            let n = e.unicode_len();
            let ghost before = out@;
            if n > 0 && e.get_char(0) == '-' && token(e.substring_char(1, n)) {
                assert(e@.subrange(1, n as int) =~= e@.drop_first());
                out.push(SortingField { field: slice_of(e, 1, n), direction: SortDirection::Descending });
                assert(sort_view(out@) =~= sort_view(before).push((e@.drop_first(), SortDirection::Descending)));
            } else if token(e) {
                out.push(SortingField { field: owned(e), direction: SortDirection::Ascending });
                assert(sort_view(out@) =~= sort_view(before).push((e@, SortDirection::Ascending)));
            } else {
                assert(n > 0 && e@[0] == '-' ==> e@.subrange(1, n as int) =~= e@.drop_first());
            }
            k = k + 1;
        }
        assert(views(entries@).take(entries@.len() as int) =~= views(entries@));
        out
    }

    /// Parameters read from a query string (the part of a URI after `?`).
    pub fn parse_query(query: &str) -> (r: Parameters)
        ensures
            r@ == query_params(query@),
            r@.fields matches Some(f) ==> unique_keys(f),
            r@.filter matches Some(f) ==> unique_keys(f),
    {
        proof {
            lemma_read_entries_unique(split_on(query@, '&'));
        }
        let entries = split_str(query, '&');
        let mut fields: FieldsParameters = Vec::new();
        let mut filter: FilterParameters = Vec::new();
        let mut includes: Option<IncludeParameters> = None;
        let mut sort: Option<SortParameters> = None;
        let mut k: usize = 0;
        while k < entries.len()
            invariant
                k <= entries@.len(),
                views(entries@) == split_on(query@, '&'),
                ({
                    let st = read_entries(views(entries@).take(k as int));
                    &&& fields_view(fields@) == st.fields
                    &&& filter_view(filter@) == st.filter
                    &&& (match includes {
                        Some(v) => st.includes == Some(views(v@)),
                        None => st.includes is None,
                    })
                    &&& (match sort {
                        Some(v) => st.sort == Some(sort_view(v@)),
                        None => st.sort is None,
                    })
                }),
            decreases entries@.len() - k,
        {
            let e = entries[k].as_str();
            let ghost es = views(entries@);
            assert(es.take(k + 1).drop_last() =~= es.take(k as int));
            assert(es.take(k + 1).last() == e@);
            if let Some(i) = find_char(e, '=') {
                proof {
                    lemma_index_of_bounds(e@, '=');
                }
                let n = e.unicode_len();
                let key = slice_of(e, 0, i);
                let value = e.substring_char(i + 1, n);
                assert(key@ == e@.take(i as int));
                assert(value@ == e@.skip(i + 1));
                if key == owned("include") {
                    includes = Some(Self::parse_include(value));
                } else if key == owned("sort") {
                    sort = Some(Self::parse_sort(value));
                } else if let Some((name, segs)) = Self::parse_family_key(key.as_str()) {
                    proof {
                        reveal_strlit(".");
                    }
                    let path = join_str(&segs, ".");
                    if name == owned("fields") {
                        let allowed = split_str(value, ',');
                        proof {
                            lemma_put_fields(fields@, path, allowed);
                        }
                        put_pair(&mut fields, path, allowed);
                    } else if name == owned("filter") {
                        let raw = owned(value);
                        proof {
                            lemma_put_filter(filter@, path, raw);
                        }
                        put_pair(&mut filter, path, raw);
                    }
                }
            }
            k = k + 1;
        }
        assert(views(entries@).take(entries@.len() as int) =~= views(entries@));
        let fields = if fields.len() == 0 {
            None
        } else {
            Some(fields)
        };
        let filter = if filter.len() == 0 {
            None
        } else {
            Some(filter)
        };
        Parameters { fields, includes, filter, sort }
    }

    /// Reads `name[seg1][seg2]...`: the name and the segments.
    fn parse_family_key(key: &str) -> (r: Option<(String, Vec<String>)>)
        ensures
            match r {
                Some((n, segs)) => family_key(key@) == Some((n@, views(segs@))),
                None => family_key(key@) is None,
            },
    {
        proof {
            lemma_family_key(key@);
        }
        let n = key.unicode_len();
        let mut phase: u8 = 0;
        let mut name_end: usize = 0;
        let mut cur_start: usize = 0;
        let mut ranges: Vec<(usize, usize)> = Vec::new();
        let mut i: usize = 0;
        assert(key@.subrange(0, 0) =~= Seq::<char>::empty());
        while i < n
            invariant
                n == key@.len(),
                i <= n,
                phase <= 3,
                phase == 0 ==> ranges@.len() == 0,
                name_end <= i,
                cur_start <= i,
                forall|j: int| 0 <= j < ranges@.len() ==> (#[trigger] ranges@[j]).0 <= ranges@[j].1 <= i,
                scan_abs(key@, i as int, phase, name_end as int, cur_start as int, ranges@)
                    == scan_key(key@.take(i as int)),
            decreases n - i,
        {
            let c = key.get_char(i);
            let ghost s = key@;
            let ghost segs = ranges@.map_values(|r: (usize, usize)| s.subrange(r.0 as int, r.1 as int));
            assert(s.take(i + 1).drop_last() =~= s.take(i as int));
            assert(s.take(i + 1).last() == c);
            if phase == 0 {
                if c == '[' {
                    if token(key.substring_char(0, i)) {
                        phase = 1;
                        name_end = i;
                        cur_start = i + 1;
                        assert(s.subrange(cur_start as int, cur_start as int) =~= Seq::<char>::empty());
                        assert(ranges@.map_values(|r: (usize, usize)| s.subrange(r.0 as int, r.1 as int)) =~= Seq::<Seq<char>>::empty());
                    } else {
                        phase = 3;
                    }
                } else {
                    assert(s.subrange(0, i + 1) =~= s.subrange(0, i as int).push(c));
                }
            } else if phase == 1 {
                if c == ']' {
                    if token(key.substring_char(cur_start, i)) {
                        let ghost before = ranges@;
                        ranges.push((cur_start, i));
                        phase = 2;
                        assert(ranges@.map_values(|r: (usize, usize)| s.subrange(r.0 as int, r.1 as int))
                            =~= segs.push(s.subrange(cur_start as int, i as int)));
                    } else {
                        phase = 3;
                    }
                } else {
                    assert(s.subrange(cur_start as int, i + 1) =~= s.subrange(cur_start as int, i as int).push(c));
                }
            } else if phase == 2 {
                if c == '[' {
                    phase = 1;
                    cur_start = i + 1;
                    assert(s.subrange(cur_start as int, cur_start as int) =~= Seq::<char>::empty());
                } else {
                    phase = 3;
                }
            }
            i = i + 1;
        }
        assert(key@.take(n as int) =~= key@);
        if phase != 2 {
            return None;
        }
        let name = slice_of(key, 0, name_end);
        let mut segs: Vec<String> = Vec::new();
        let mut k: usize = 0;
        while k < ranges.len()
            invariant
                n == key@.len(),
                k <= ranges@.len(),
                forall|j: int| 0 <= j < ranges@.len() ==> (#[trigger] ranges@[j]).0 <= ranges@[j].1 <= n,
                views(segs@) == ranges@.take(k as int).map_values(
                    |r: (usize, usize)| key@.subrange(r.0 as int, r.1 as int),
                ),
            decreases ranges@.len() - k,
        {
            let (a, b) = ranges[k];
            let ghost before = segs@;
            segs.push(slice_of(key, a, b));
            assert(views(segs@) =~= views(before).push(key@.subrange(a as int, b as int)));
            assert(ranges@.take(k + 1).map_values(|r: (usize, usize)| key@.subrange(r.0 as int, r.1 as int))
                =~= ranges@.take(k as int).map_values(|r: (usize, usize)| key@.subrange(r.0 as int, r.1 as int)).push(key@.subrange(a as int, b as int)));
            k = k + 1;
        }
        assert(ranges@.take(ranges@.len() as int) =~= ranges@);
        Some((name, segs))
    }

}

} // verus!
