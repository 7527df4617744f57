//! Increasing account lists: where an account goes in one, putting it there
//! and taking it out, and binary search.

use crate::bounded::{list_accounts, list_index, list_len, AccountId, AccountList};
use crate::types::strictly_sorted;
use vstd::prelude::*;

verus! {

/// `i` is where `x` goes into the increasing list `s`: everything before it
/// is smaller and everything from it on is larger.
pub open spec fn is_insert_point(s: Seq<AccountId>, x: AccountId, i: int) -> bool {
    &&& 0 <= i <= s.len()
    &&& forall|j: int| 0 <= j < i ==> #[trigger] s[j] < x
    &&& forall|j: int| i <= j < s.len() ==> x < #[trigger] s[j]
}

/// The increasing list `s` with `x` put in its place.
pub open spec fn insert_sorted(s: Seq<AccountId>, x: AccountId) -> Seq<AccountId> {
    s.insert(choose|i: int| is_insert_point(s, x, i), x)
}

/// The list `s` without the account `x`.
pub open spec fn remove_account(s: Seq<AccountId>, x: AccountId) -> Seq<AccountId> {
    s.remove(s.index_of(x))
}

/// There is at most one place for an account in a list.
pub proof fn lemma_insert_point_unique(s: Seq<AccountId>, x: AccountId, i: int, k: int)
    requires
        is_insert_point(s, x, i),
        is_insert_point(s, x, k),
    ensures
        i == k,
{
    if i < k {
        assert(s[i] < x);
    } else if k < i {
        assert(s[k] < x);
    }
}

/// An account that an increasing list lacks has a place in it.
pub proof fn lemma_insert_point_exists(s: Seq<AccountId>, x: AccountId)
    requires
        strictly_sorted(s),
        !s.contains(x),
    ensures
        exists|i: int| is_insert_point(s, x, i),
    decreases s.len(),
{
    if s.len() == 0 {
        assert(is_insert_point(s, x, 0));
    } else {
        let t = s.drop_last();
        assert forall|j: int| 0 <= j < t.len() implies t[j] != x by {
            assert(s[j] == t[j]);
        }
        lemma_insert_point_exists(t, x);
        let i = choose|i: int| is_insert_point(t, x, i);
        let n = s.len() - 1;
        if s[n] < x {
            assert forall|j: int| 0 <= j < s.len() implies #[trigger] s[j] < x by {
                if j < n {
                    assert(s[j] < s[n]);
                }
            }
            assert(is_insert_point(s, x, s.len() as int));
        } else {
            assert(s[n] != x);
            assert forall|j: int| 0 <= j < i implies #[trigger] s[j] < x by {
                assert(s[j] == t[j]);
            }
            assert forall|j: int| i <= j < s.len() implies x < #[trigger] s[j] by {
                if j < n {
                    assert(s[j] == t[j]);
                }
            }
            assert(is_insert_point(s, x, i));
        }
    }
}

/// Putting an account that an increasing list lacks in its place gives an
/// increasing list of the same accounts and that one.
pub proof fn lemma_insert_sorted(s: Seq<AccountId>, x: AccountId)
    requires
        strictly_sorted(s),
        !s.contains(x),
    ensures
        is_insert_point(s, x, choose|i: int| is_insert_point(s, x, i)),
        strictly_sorted(insert_sorted(s, x)),
        insert_sorted(s, x).len() == s.len() + 1,
        forall|y: AccountId| #[trigger] insert_sorted(s, x).contains(y) <==> (s.contains(y) || y == x),
{
    lemma_insert_point_exists(s, x);
    let i = choose|i: int| is_insert_point(s, x, i);
    let r = insert_sorted(s, x);
    s.insert_ensures(i, x);
    assert forall|a: int, b: int| 0 <= a < b < r.len() implies r[a] < r[b] by {
        if b < i {
        } else if b == i {
            assert(r[a] == s[a]);
        } else if a < i {
            assert(r[b] == s[b - 1]);
        } else if a == i {
            assert(r[b] == s[b - 1]);
        } else {
            assert(r[a] == s[a - 1]);
            assert(r[b] == s[b - 1]);
        }
    }
    assert forall|y: AccountId| #[trigger] r.contains(y) implies (s.contains(y) || y == x) by {
        let k = choose|k: int| 0 <= k < r.len() && r[k] == y;
        if k < i {
            assert(s[k] == y);
        } else if k > i {
            assert(s[k - 1] == y);
        }
    }
    assert forall|y: AccountId| (s.contains(y) || y == x) implies #[trigger] r.contains(y) by {
        if y == x {
            assert(r[i] == x);
        } else {
            let k = choose|k: int| 0 <= k < s.len() && s[k] == y;
            if k < i {
                assert(r[k] == y);
            } else {
                assert(r[k + 1] == y);
            }
        }
    }
}

/// Taking an account out of an increasing list that holds it gives an
/// increasing list of the other accounts.
pub proof fn lemma_remove_account(s: Seq<AccountId>, x: AccountId)
    requires
        strictly_sorted(s),
        s.contains(x),
    ensures
        strictly_sorted(remove_account(s, x)),
        remove_account(s, x).len() == s.len() - 1,
        forall|y: AccountId| #[trigger] remove_account(s, x).contains(y) <==> (s.contains(y) && y != x),
{
    let i = s.index_of(x);
    let r = remove_account(s, x);
    s.remove_ensures(i);
    assert forall|a: int, b: int| 0 <= a < b < r.len() implies r[a] < r[b] by {
        if b < i {
        } else if a < i {
            assert(r[b] == s[b + 1]);
        } else {
            assert(r[a] == s[a + 1]);
            assert(r[b] == s[b + 1]);
        }
    }
    assert forall|y: AccountId| #[trigger] r.contains(y) implies (s.contains(y) && y != x) by {
        let k = choose|k: int| 0 <= k < r.len() && r[k] == y;
        if k < i {
            assert(s[k] == y);
            assert(s[k] < s[i]);
        } else {
            assert(s[k + 1] == y);
            assert(s[i] < s[k + 1]);
        }
    }
    assert forall|y: AccountId| (s.contains(y) && y != x) implies #[trigger] r.contains(y) by {
        let k = choose|k: int| 0 <= k < s.len() && s[k] == y;
        if k < i {
            assert(r[k] == y);
        } else {
            assert(k != i);
            assert(r[k - 1] == y);
        }
    }
}

/// In an increasing list, the account at a position is found at that
/// position.
pub proof fn lemma_index_of_sorted(s: Seq<AccountId>, i: int)
    requires
        strictly_sorted(s),
        0 <= i < s.len(),
    ensures
        s.index_of(s[i]) == i,
{
    let x = s[i];
    assert(s.contains(x));
    let k = s.index_of(x);
    assert(0 <= k < s.len() && s[k] == x);
    if k < i {
        assert(s[k] < s[i]);
    } else if i < k {
        assert(s[i] < s[k]);
    }
}

/// Searches an increasing account list for an account: `Ok` with its
/// position where the list holds it, else `Err` with the position where it
/// would go.
pub fn binary_search(list: &AccountList, x: AccountId) -> (r: Result<usize, usize>)
    requires
        strictly_sorted(list_accounts(*list)),
    ensures
        match r {
            Ok(i) => i < list_accounts(*list).len() && list_accounts(*list)[i as int] == x,
            Err(i) => is_insert_point(list_accounts(*list), x, i as int),
        },
        r is Ok <==> list_accounts(*list).contains(x),
{
    let ghost s = list_accounts(*list);
    let mut lo: usize = 0;
    let mut hi: usize = list_len(list);
    while lo < hi
        invariant
            0 <= lo <= hi <= s.len(),
            s == list_accounts(*list),
            strictly_sorted(s),
            forall|j: int| 0 <= j < lo ==> #[trigger] s[j] < x,
            forall|j: int| hi <= j < s.len() ==> x < #[trigger] s[j],
        decreases hi - lo,
    {
        let mid = lo + (hi - lo) / 2;
        let v = list_index(list, mid);
        if v == x {
            return Ok(mid);
        } else if v < x {
            assert forall|j: int| 0 <= j < mid + 1 implies #[trigger] s[j] < x by {
                if j < mid {
                    assert(s[j] < s[mid as int]);
                }
            }
            lo = mid + 1;
        } else {
            assert forall|j: int| mid <= j < s.len() implies x < #[trigger] s[j] by {
                if j > mid {
                    assert(s[mid as int] < s[j]);
                }
            }
            hi = mid;
        }
    }
    assert(!s.contains(x)) by {
        if s.contains(x) {
            let k = choose|k: int| 0 <= k < s.len() && s[k] == x;
            if k < lo {
                assert(s[k] < x);
            } else {
                assert(x < s[k]);
            }
        }
    }
    Err(lo)
}

} // verus!
