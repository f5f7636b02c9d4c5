//! The contact list of a peer: the peers it talks to, each with the address it is
//! known by and its connection. Looking a contact up or removing it first sorts the
//! list by address, stably, then searches it by bisection.
use vstd::prelude::*;

verus! {

broadcast use vstd::seq_lib::group_seq_properties;

/// A socket address as the list orders it: IPv4 before IPv6, then by the address as an
/// integer, the port, the IPv6 flow information and the IPv6 scope; the IPv4 ones have
/// zero in the last two.
#[derive(Clone, Copy, PartialEq, Eq, Structural, Debug)]
pub struct PeerAddress {
    pub v6: bool,
    pub ip: u128,
    pub port: u16,
    pub flowinfo: u32,
    pub scope_id: u32,
}

/// `a` comes strictly before `b`.
pub open spec fn addr_lt(a: PeerAddress, b: PeerAddress) -> bool {
    ||| (!a.v6 && b.v6)
    ||| (a.v6 == b.v6 && a.ip < b.ip)
    ||| (a.v6 == b.v6 && a.ip == b.ip && a.port < b.port)
    ||| (a.v6 == b.v6 && a.ip == b.ip && a.port == b.port && a.flowinfo < b.flowinfo)
    ||| (a.v6 == b.v6 && a.ip == b.ip && a.port == b.port && a.flowinfo == b.flowinfo
        && a.scope_id < b.scope_id)
}

/// Whether `a` comes strictly before `b`.
pub fn addr_less(a: &PeerAddress, b: &PeerAddress) -> (r: bool)
    ensures
        r == addr_lt(*a, *b),
{
    if a.v6 != b.v6 {
        !a.v6
    } else if a.ip != b.ip {
        a.ip < b.ip
    } else if a.port != b.port {
        a.port < b.port
    } else if a.flowinfo != b.flowinfo {
        a.flowinfo < b.flowinfo
    } else {
        a.scope_id < b.scope_id
    }
}

/// The entries of `s` are in ascending order of address.
pub open spec fn sorted_by_address<S>(s: Seq<(PeerAddress, S)>) -> bool {
    forall|i: int, j: int| 0 <= i < j < s.len() ==> !addr_lt(#[trigger] s[j].0, #[trigger] s[i].0)
}

/// Whether an entry has address `a`.
pub open spec fn addressed<S>(a: PeerAddress) -> spec_fn((PeerAddress, S)) -> bool {
    |e: (PeerAddress, S)| e.0 == a
}

/// The entries of `s` with address `a`, in their order in `s`.
pub open spec fn with_address<S>(s: Seq<(PeerAddress, S)>, a: PeerAddress) -> Seq<
    (PeerAddress, S),
> {
    s.filter(addressed(a))
}

/// `t` is `s` sorted stably by address (as `sort_by_key` sorts): ascending, and the
/// entries of each address in the order `s` has them.
pub open spec fn is_stable_sort<S>(t: Seq<(PeerAddress, S)>, s: Seq<(PeerAddress, S)>) -> bool {
    &&& sorted_by_address(t)
    &&& forall|a: PeerAddress| #[trigger] with_address(t, a) == with_address(s, a)
}

/// Some entry of `s` has address `a`.
pub open spec fn has_address<S>(s: Seq<(PeerAddress, S)>, a: PeerAddress) -> bool {
    exists|i: int| 0 <= i < s.len() && #[trigger] s[i].0 == a
}

/// An address occurs in a list exactly when some entry of it is kept by `with_address`.
pub proof fn lemma_has_address_filter<S>(s: Seq<(PeerAddress, S)>, a: PeerAddress)
    ensures
        has_address(s, a) <==> with_address(s, a).len() > 0,
    decreases s.len(),
{
    reveal(Seq::filter);
    if s.len() > 0 {
        let r = s.drop_last();
        lemma_has_address_filter(r, a);
        assert(with_address(s, a) == if s.last().0 == a {
            with_address(r, a).push(s.last())
        } else {
            with_address(r, a)
        });
        if has_address(r, a) {
            let i = choose|i: int| 0 <= i < r.len() && #[trigger] r[i].0 == a;
            assert(s[i].0 == a);
        }
        if has_address(s, a) && s.last().0 != a {
            let i = choose|i: int| 0 <= i < s.len() && #[trigger] s[i].0 == a;
            assert(r[i].0 == a);
        }
        if s.last().0 == a {
            assert(s[s.len() - 1].0 == a);
        }
    }
}

/// Stable sorts keep the addresses that occur.
pub proof fn lemma_stable_sort_has_address<S>(
    t: Seq<(PeerAddress, S)>,
    s: Seq<(PeerAddress, S)>,
    a: PeerAddress,
)
    requires
        is_stable_sort(t, s),
    ensures
        has_address(t, a) <==> has_address(s, a),
{
    lemma_has_address_filter(t, a);
    lemma_has_address_filter(s, a);
    assert(with_address(t, a) == with_address(s, a));
}

/// The first index of the sorted `s` whose address comes after `a`.
fn upper_bound<S>(s: &Vec<(PeerAddress, S)>, a: &PeerAddress) -> (r: usize)
    requires
        sorted_by_address(s@),
    ensures
        r <= s.len(),
        forall|i: int| 0 <= i < r ==> !addr_lt(*a, #[trigger] s@[i].0),
        forall|i: int| r <= i < s.len() ==> addr_lt(*a, #[trigger] s@[i].0),
{
    let mut k: usize = 0;
    while k < s.len() && !addr_less(a, &s[k].0)
        invariant
            k <= s.len(),
            forall|i: int| 0 <= i < k ==> !addr_lt(*a, #[trigger] s@[i].0),
        decreases s.len() - k,
    {
        k = k + 1;
    }
    assert forall|i: int| k <= i < s.len() implies addr_lt(*a, #[trigger] s@[i].0) by {
        if i > k {
            assert(!addr_lt(s@[i].0, s@[k as int].0));
        }
    }
    k
}

/// Inserting `x` just after the entries whose addresses do not come after its own keeps
/// a stable sort of `s` a stable sort of `s` followed by `x`.
proof fn lemma_insert_stable<S>(
    t: Seq<(PeerAddress, S)>,
    s: Seq<(PeerAddress, S)>,
    x: (PeerAddress, S),
    p: int,
)
    requires
        is_stable_sort(t, s),
        0 <= p <= t.len(),
        forall|i: int| 0 <= i < p ==> !addr_lt(x.0, #[trigger] t[i].0),
        forall|i: int| p <= i < t.len() ==> addr_lt(x.0, #[trigger] t[i].0),
    ensures
        is_stable_sort(t.insert(p, x), s.push(x)),
{
    let n = t.insert(p, x);
    let pre = t.take(p);
    let post = t.skip(p);
    assert(t =~= pre + post);
    assert(n =~= pre + seq![x] + post);
    assert forall|i: int, j: int| 0 <= i < j < n.len() implies !addr_lt(
        #[trigger] n[j].0,
        #[trigger] n[i].0,
    ) by {
        if j < p {
            assert(n[i] == t[i] && n[j] == t[j]);
        } else if j == p {
            assert(n[i] == t[i]);
        } else if i < p {
            assert(n[i] == t[i] && n[j] == t[j - 1]);
            assert(addr_lt(x.0, t[j - 1].0));
        } else if i == p {
            assert(n[j] == t[j - 1]);
            assert(addr_lt(x.0, t[j - 1].0));
        } else {
            assert(n[i] == t[i - 1] && n[j] == t[j - 1]);
        }
    }
    assert forall|a: PeerAddress| #[trigger] with_address(n, a) == with_address(s.push(x), a) by {
        let f = addressed::<S>(a);
        assert(with_address(n, a) == n.filter(f));
        Seq::filter_distributes_over_add(pre + seq![x], post, f);
        Seq::filter_distributes_over_add(pre, seq![x], f);
        Seq::filter_distributes_over_add(pre, post, f);
        s.lemma_filter_push(x, f);
        assert(with_address(t, a) == with_address(s, a));
        reveal_with_fuel(Seq::filter, 2);
        assert(seq![x].drop_last() =~= Seq::<(PeerAddress, S)>::empty());
        if x.0 == a {
            lemma_has_address_filter(post, a);
            if has_address(post, a) {
                let i = choose|i: int| 0 <= i < post.len() && #[trigger] post[i].0 == a;
                assert(post[i] == t[p + i]);
            }
            assert(post.filter(f) =~= Seq::<(PeerAddress, S)>::empty());
        }
    }
}

/// Sorts `list` stably by address.
fn sort_by_address<S>(list: &mut Vec<(PeerAddress, S)>)
    ensures
        is_stable_sort(final(list)@, old(list)@),
{
    let ghost orig = list@;
    let mut sorted: Vec<(PeerAddress, S)> = Vec::new();
    let ghost k: int = 0;
    assert(orig.take(0) =~= Seq::<(PeerAddress, S)>::empty());
    proof {
        assert forall|a: PeerAddress| #[trigger] with_address(sorted@, a) == with_address(
            orig.take(0),
            a,
        ) by {
            reveal(Seq::filter);
        }
    }
    while list.len() > 0
        invariant
            0 <= k <= orig.len(),
            list@ == orig.skip(k),
            is_stable_sort(sorted@, orig.take(k)),
        decreases list.len(),
    {
        let x = list.remove(0);
        let p = upper_bound(&sorted, &x.0);
        proof {
            lemma_insert_stable(sorted@, orig.take(k), x, p as int);
            assert(orig.take(k).push(x) =~= orig.take(k + 1));
            k = k + 1;
        }
        sorted.insert(p, x);
        assert(list@ =~= orig.skip(k));
    }
    assert(orig.take(k) =~= orig);
    *list = sorted;
}

/// The first index of the sorted `s` whose entry has address `a`, if there is one
/// (by bisection).
fn search_address<S>(s: &Vec<(PeerAddress, S)>, a: &PeerAddress) -> (r: Option<usize>)
    requires
        sorted_by_address(s@),
    ensures
        r matches Some(i) ==> i < s.len() && s@[i as int].0 == *a && forall|j: int|
            0 <= j < i ==> #[trigger] s@[j].0 != *a,
        r is None ==> !has_address(s@, *a),
{
    let mut lo: usize = 0;
    let mut hi: usize = s.len();
    while lo < hi
        invariant
            lo <= hi <= s.len(),
            sorted_by_address(s@),
            forall|i: int| 0 <= i < lo ==> addr_lt(#[trigger] s@[i].0, *a),
            forall|i: int| hi <= i < s.len() ==> !addr_lt(#[trigger] s@[i].0, *a),
        decreases hi - lo,
    {
        let mid = lo + (hi - lo) / 2;
        if addr_less(&s[mid].0, a) {
            assert forall|i: int| 0 <= i <= mid implies addr_lt(#[trigger] s@[i].0, *a) by {
                if i < mid {
                    assert(!addr_lt(s@[mid as int].0, s@[i].0));
                }
            }
            lo = mid + 1;
        } else {
            assert forall|i: int| mid <= i < s.len() implies !addr_lt(#[trigger] s@[i].0, *a) by {
                if i > mid {
                    assert(!addr_lt(s@[i].0, s@[mid as int].0));
                }
            }
            hi = mid;
        }
    }
    if lo < s.len() && s[lo].0 == *a {
        Some(lo)
    } else {
        assert forall|i: int| 0 <= i < s.len() implies #[trigger] s@[i].0 != *a by {
            if i >= lo && lo < s.len() {
                assert(!addr_lt(s@[i].0, s@[lo as int].0));
                assert(!addr_lt(s@[lo as int].0, *a));
            }
        }
        None
    }
}

/// A contact just pushed is found again: every stable sort of the list holds its address.
pub proof fn lemma_pushed_contact_is_found<S>(
    s: Seq<(PeerAddress, S)>,
    c: (PeerAddress, S),
    t: Seq<(PeerAddress, S)>,
)
    requires
        is_stable_sort(t, s.push(c)),
    ensures
        has_address(t, c.0),
{
    assert(s.push(c)[s.len() as int].0 == c.0);
    lemma_stable_sort_has_address(t, s.push(c), c.0);
}

/// Removing an entry splits the entries of each address around it.
proof fn lemma_with_address_remove<S>(t: Seq<(PeerAddress, S)>, i: int, a: PeerAddress)
    requires
        0 <= i < t.len(),
    ensures
        with_address(t, a) == with_address(t.take(i), a) + with_address(seq![t[i]], a)
            + with_address(t.skip(i + 1), a),
        with_address(t.remove(i), a) == with_address(t.take(i), a) + with_address(
            t.skip(i + 1),
            a,
        ),
{
    let f = addressed::<S>(a);
    assert(t =~= t.take(i) + seq![t[i]] + t.skip(i + 1));
    assert(t.remove(i) =~= t.take(i) + t.skip(i + 1));
    Seq::filter_distributes_over_add(t.take(i) + seq![t[i]], t.skip(i + 1), f);
    Seq::filter_distributes_over_add(t.take(i), seq![t[i]], f);
    Seq::filter_distributes_over_add(t.take(i), t.skip(i + 1), f);
}

/// Pushing a contact whose address was not in the list, then removing that address,
/// leaves the other contacts, sorted stably.
pub proof fn lemma_remove_pushed_contact<S>(
    s: Seq<(PeerAddress, S)>,
    c: (PeerAddress, S),
    t: Seq<(PeerAddress, S)>,
    i: int,
)
    requires
        !has_address(s, c.0),
        is_stable_sort(t, s.push(c)),
        0 <= i < t.len(),
        t[i].0 == c.0,
    ensures
        is_stable_sort(t.remove(i), s),
{
    let r = t.remove(i);
    assert forall|j: int, k: int| 0 <= j < k < r.len() implies !addr_lt(
        #[trigger] r[k].0,
        #[trigger] r[j].0,
    ) by {
        let jj = if j < i { j } else { j + 1 };
        let kk = if k < i { k } else { k + 1 };
        assert(r[j] == t[jj] && r[k] == t[kk]);
    }
    assert forall|a: PeerAddress| #[trigger] with_address(r, a) == with_address(s, a) by {
        let f = addressed::<S>(a);
        lemma_with_address_remove(t, i, a);
        s.lemma_filter_push(c, f);
        assert(with_address(t, a) == with_address(s.push(c), a));
        reveal_with_fuel(Seq::filter, 2);
        assert(seq![t[i]].drop_last() =~= Seq::<(PeerAddress, S)>::empty());
        if a == c.0 {
            lemma_has_address_filter(s, a);
            assert(with_address(s, a).len() == 0);
            assert(with_address(r, a) =~= with_address(s, a));
        }
    }
}

/// Pushing a contact and removing the first entry with its address again, whatever the
/// list held, leaves a list sorted by address with as many entries of each address as
/// before.
pub proof fn lemma_push_remove_keeps_counts<S>(
    s: Seq<(PeerAddress, S)>,
    c: (PeerAddress, S),
    t: Seq<(PeerAddress, S)>,
    i: int,
)
    requires
        is_stable_sort(t, s.push(c)),
        0 <= i < t.len(),
        t[i].0 == c.0,
    ensures
        sorted_by_address(t.remove(i)),
        forall|a: PeerAddress| #[trigger] with_address(t.remove(i), a).len() == with_address(
            s,
            a,
        ).len(),
{
    let r = t.remove(i);
    assert forall|j: int, k: int| 0 <= j < k < r.len() implies !addr_lt(
        #[trigger] r[k].0,
        #[trigger] r[j].0,
    ) by {
        let jj = if j < i { j } else { j + 1 };
        let kk = if k < i { k } else { k + 1 };
        assert(r[j] == t[jj] && r[k] == t[kk]);
    }
    assert forall|a: PeerAddress| #[trigger] with_address(r, a).len() == with_address(s, a).len() by {
        let f = addressed::<S>(a);
        lemma_with_address_remove(t, i, a);
        s.lemma_filter_push(c, f);
        assert(with_address(t, a) == with_address(s.push(c), a));
        reveal_with_fuel(Seq::filter, 2);
        assert(seq![t[i]].drop_last() =~= Seq::<(PeerAddress, S)>::empty());
    }
}

/// The last entry of a sorted list has the greatest address in it.
proof fn lemma_sorted_last_is_max<S>(t: Seq<(PeerAddress, S)>, a: PeerAddress)
    requires
        sorted_by_address(t),
        has_address(t, a),
    ensures
        t.len() > 0,
        !addr_lt(t.last().0, a),
{
    let i = choose|i: int| 0 <= i < t.len() && #[trigger] t[i].0 == a;
    if i < t.len() - 1 {
        assert(!addr_lt(t[t.len() - 1].0, t[i].0));
    }
}

/// A list has a single stable sort: two stable sorts of the same list are equal.
pub proof fn lemma_stable_sort_unique<S>(
    t1: Seq<(PeerAddress, S)>,
    t2: Seq<(PeerAddress, S)>,
    s: Seq<(PeerAddress, S)>,
)
    requires
        is_stable_sort(t1, s),
        is_stable_sort(t2, s),
    ensures
        t1 == t2,
    decreases t1.len() + t2.len(),
{
    if t1.len() == 0 || t2.len() == 0 {
        if t1.len() > 0 {
            assert(t1[0].0 == t1[0].0);
            lemma_stable_sort_has_address(t1, s, t1[0].0);
            lemma_stable_sort_has_address(t2, s, t1[0].0);
        }
        if t2.len() > 0 {
            assert(t2[0].0 == t2[0].0);
            lemma_stable_sort_has_address(t2, s, t2[0].0);
            lemma_stable_sort_has_address(t1, s, t2[0].0);
        }
        assert(t1 =~= t2);
    } else {
        let m1 = t1.last().0;
        let m2 = t2.last().0;
        assert(t1[t1.len() - 1].0 == m1);
        assert(t2[t2.len() - 1].0 == m2);
        lemma_stable_sort_has_address(t1, s, m2);
        lemma_stable_sort_has_address(t2, s, m2);
        lemma_stable_sort_has_address(t1, s, m1);
        lemma_stable_sort_has_address(t2, s, m1);
        lemma_sorted_last_is_max(t1, m2);
        lemma_sorted_last_is_max(t2, m1);
        assert(m1 == m2);
        let m = m1;
        let f = addressed::<S>(m);
        assert(t1 =~= t1.drop_last().push(t1.last()));
        assert(t2 =~= t2.drop_last().push(t2.last()));
        t1.drop_last().lemma_filter_push(t1.last(), f);
        t2.drop_last().lemma_filter_push(t2.last(), f);
        assert(with_address(t1, m) == t1.filter(f));
        assert(with_address(t2, m) == t2.filter(f));
        assert(f(t1.last()) && f(t2.last()));
        assert(with_address(t1, m) == with_address(t2, m));
        assert(with_address(t1, m).last() == t1.last());
        assert(with_address(t2, m).last() == t2.last());
        let r1 = t1.drop_last();
        let r2 = t2.drop_last();
        assert forall|a: PeerAddress| #[trigger] with_address(r1, a) == with_address(r2, a) by {
            let g = addressed::<S>(a);
            r1.lemma_filter_push(t1.last(), g);
            r2.lemma_filter_push(t2.last(), g);
            assert(with_address(t1, a) == t1.filter(g));
            assert(with_address(t2, a) == t2.filter(g));
            assert(with_address(r1, a) == r1.filter(g));
            assert(with_address(r2, a) == r2.filter(g));
            assert(with_address(t1, a) == with_address(t2, a));
            if a == m {
                assert(with_address(r1, a) =~= with_address(t1, a).drop_last());
                assert(with_address(r2, a) =~= with_address(t2, a).drop_last());
            }
        }
        assert(is_stable_sort(r1, r2)) by {
            assert forall|j: int, k: int| 0 <= j < k < r1.len() implies !addr_lt(
                #[trigger] r1[k].0,
                #[trigger] r1[j].0,
            ) by {
                assert(r1[j] == t1[j] && r1[k] == t1[k]);
            }
        }
        assert(is_stable_sort(r2, r2)) by {
            assert forall|j: int, k: int| 0 <= j < k < r2.len() implies !addr_lt(
                #[trigger] r2[k].0,
                #[trigger] r2[j].0,
            ) by {
                assert(r2[j] == t2[j] && r2[k] == t2[k]);
            }
        }
        lemma_stable_sort_unique(r1, r2, r2);
        assert(t1 =~= t2);
    }
}

/// Sorting a list that is already sorted by address leaves it as it is, so a lookup
/// leaves a sorted list unchanged.
pub proof fn lemma_sorted_list_is_kept<S>(s: Seq<(PeerAddress, S)>, t: Seq<(PeerAddress, S)>)
    requires
        sorted_by_address(s),
        is_stable_sort(t, s),
    ensures
        t == s,
{
    lemma_stable_sort_unique(t, s, s);
}

/// Adds `contact` at the end of the list.
pub fn contact_list_push<S>(contact_list: &mut Vec<(PeerAddress, S)>, contact: (PeerAddress, S))
    ensures
        final(contact_list)@ == old(contact_list)@.push(contact),
{
    contact_list.push(contact);
}

/// Sorts the list by address, stably, and removes from it the first entry with the
/// address of `contact`. The list must hold that address.
pub fn contact_list_remove<S>(contact_list: &mut Vec<(PeerAddress, S)>, contact: (PeerAddress, S))
    requires
        has_address(old(contact_list)@, contact.0),
    ensures
        exists|t: Seq<(PeerAddress, S)>, i: int|
            {
                &&& is_stable_sort(t, old(contact_list)@)
                &&& 0 <= i < t.len()
                &&& t[i].0 == contact.0
                &&& forall|j: int| 0 <= j < i ==> #[trigger] t[j].0 != contact.0
                &&& final(contact_list)@ == t.remove(i)
            },
{
    sort_by_address(contact_list);
    let ghost t = contact_list@;
    proof {
        lemma_stable_sort_has_address(contact_list@, old(contact_list)@, contact.0);
    }
    match search_address(contact_list, &contact.0) {
        Some(i) => {
            contact_list.remove(i);
            assert(is_stable_sort(t, old(contact_list)@) && t[i as int].0 == contact.0
                && (forall|j: int| 0 <= j < i ==> #[trigger] t[j].0 != contact.0)
                && contact_list@ == t.remove(i as int));
        },
        None => {},
    }
}

/// Sorts the list by address, stably, and finds the first entry with address
/// `socket_address`: its index in the sorted list, or `None` when no entry has that
/// address.
pub fn contact_list_get_stream_by_socket_address<S>(
    contact_list: &mut Vec<(PeerAddress, S)>,
    socket_address: PeerAddress,
) -> (r: Option<usize>)
    ensures
        is_stable_sort(final(contact_list)@, old(contact_list)@),
        r matches Some(i) ==> i < final(contact_list)@.len() && final(contact_list)@[i as int].0
            == socket_address && forall|j: int|
            0 <= j < i ==> #[trigger] final(contact_list)@[j].0 != socket_address,
        r is None <==> !has_address(old(contact_list)@, socket_address),
{
    sort_by_address(contact_list);
    proof {
        lemma_stable_sort_has_address(contact_list@, old(contact_list)@, socket_address);
    }
    search_address(contact_list, &socket_address)
}

} // verus!
