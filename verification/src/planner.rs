use crate::product::Product;
use vstd::prelude::*;
use vstd::seq_lib::group_filter_ensures;
use vstd::seq_lib::group_to_multiset_ensures;
use vstd::seq_lib::lemma_multiset_commutative;

verus! {

/// Whether `s` is ordered by ascending price.
pub open spec fn sorted_by_price(s: Seq<Product>) -> bool {
    forall|i: int, j: int| 0 <= i < j < s.len() ==> s[i].price <= s[j].price
}

/// `p` placed into `s` after every earlier item of the same or a lower
/// price: the insertion step of a stable insertion sort.
pub open spec fn insert_by_price(p: Product, s: Seq<Product>) -> Seq<Product>
    decreases s.len(),
{
    if s.len() == 0 {
        seq![p]
    } else if p.price < s[0].price {
        seq![p] + s
    } else {
        seq![s[0]] + insert_by_price(p, s.drop_first())
    }
}

/// The stable ascending-by-price ordering of `s`: items of equal price
/// keep the order they had in `s`.
pub open spec fn sort_by_price_spec(s: Seq<Product>) -> Seq<Product>
    decreases s.len(),
{
    if s.len() == 0 {
        Seq::empty()
    } else {
        insert_by_price(s.last(), sort_by_price_spec(s.drop_last()))
    }
}

/// The items costing exactly `pr` cents.
pub open spec fn has_price(pr: u64) -> spec_fn(Product) -> bool {
    |x: Product| x.price == pr
}

/// The cost in cents of the first `k` items of `s`.
pub open spec fn prefix_total(s: Seq<Product>, k: int) -> int
    decreases k,
{
    if k <= 0 {
        0
    } else {
        prefix_total(s, k - 1) + s[k - 1].price
    }
}

/// The cost in cents of the whole catalog.
pub open spec fn catalog_total_spec(s: Seq<Product>) -> int {
    prefix_total(s, s.len() as int)
}

proof fn lemma_insert_len(p: Product, s: Seq<Product>)
    ensures
        insert_by_price(p, s).len() == s.len() + 1,
    decreases s.len(),
{
    if s.len() > 0 && !(p.price < s[0].price) {
        lemma_insert_len(p, s.drop_first());
    }
}

proof fn lemma_insert_sorted(p: Product, s: Seq<Product>)
    requires
        sorted_by_price(s),
    ensures
        sorted_by_price(insert_by_price(p, s)),
    decreases s.len(),
{
    let r = insert_by_price(p, s);
    if s.len() == 0 {
    } else if p.price < s[0].price {
        assert(forall|i: int| 0 <= i < s.len() ==> r[i + 1] == s[i]);
        assert forall|i: int, j: int| 0 <= i < j < r.len() implies r[i].price <= r[j].price by {
            if i > 0 {
                assert(r[i] == s[i - 1]);
                assert(r[j] == s[j - 1]);
            } else {
                assert(r[j] == s[j - 1]);
                assert(s[0].price <= s[j - 1].price);
            }
        }
    } else {
        let df = s.drop_first();
        assert(sorted_by_price(df)) by {
            assert(forall|i: int| 0 <= i < df.len() ==> df[i] == s[i + 1]);
        }
        lemma_insert_sorted(p, df);
        lemma_insert_len(p, df);
        let ins = insert_by_price(p, df);
        assert(s[0].price <= ins[0].price) by {
            if df.len() == 0 {
                assert(ins[0] == p);
            } else if p.price < df[0].price {
                assert(ins[0] == p);
            } else {
                assert(ins[0] == df[0]);
                assert(df[0] == s[1]);
            }
        }
        assert forall|i: int, j: int| 0 <= i < j < r.len() implies r[i].price <= r[j].price by {
            if i == 0 {
                assert(r[j] == ins[j - 1]);
                if j > 1 {
                    assert(ins[0].price <= ins[j - 1].price);
                }
            } else {
                assert(r[i] == ins[i - 1]);
                assert(r[j] == ins[j - 1]);
                assert(ins[i - 1].price <= ins[j - 1].price);
            }
        }
    }
}

proof fn lemma_insert_multiset(p: Product, s: Seq<Product>)
    ensures
        insert_by_price(p, s).to_multiset() =~= s.to_multiset().insert(p),
    decreases s.len(),
{
    broadcast use group_to_multiset_ensures;

    if s.len() == 0 {
        assert(seq![p] =~= Seq::<Product>::empty().push(p));
    } else if p.price < s[0].price {
        lemma_multiset_commutative(seq![p], s);
        assert(seq![p] =~= Seq::<Product>::empty().push(p));
    } else {
        let df = s.drop_first();
        lemma_insert_multiset(p, df);
        lemma_multiset_commutative(seq![s[0]], insert_by_price(p, df));
        lemma_multiset_commutative(seq![s[0]], df);
        assert(seq![s[0]] =~= Seq::<Product>::empty().push(s[0]));
        assert(s =~= seq![s[0]] + df);
    }
}

proof fn lemma_filter_single(q: Product, pred: spec_fn(Product) -> bool)
    ensures
        seq![q].filter(pred) == if pred(q) {
            seq![q]
        } else {
            Seq::<Product>::empty()
        },
{
    reveal_with_fuel(Seq::filter, 3);
    let single = seq![q];
    assert(single.drop_last() =~= Seq::<Product>::empty());
    assert(single.last() == q);
    if pred(q) {
        assert(single.filter(pred) =~= seq![q]);
    } else {
        assert(single.filter(pred) =~= Seq::<Product>::empty());
    }
}

proof fn lemma_filter_subset(s: Seq<Product>, pred: spec_fn(Product) -> bool, x: Product)
    requires
        s.filter(pred).contains(x),
    ensures
        s.contains(x),
    decreases s.len(),
{
    reveal(Seq::filter);
    if s.len() > 0 {
        if x == s.last() {
            assert(s[s.len() - 1] == x);
        } else {
            assert(s.drop_last().filter(pred).contains(x));
            lemma_filter_subset(s.drop_last(), pred, x);
            let k = choose|k: int| 0 <= k < s.drop_last().len() && s.drop_last()[k] == x;
            assert(s[k] == x);
        }
    }
}

proof fn lemma_insert_filter(p: Product, s: Seq<Product>, pr: u64)
    requires
        sorted_by_price(s),
    ensures
        insert_by_price(p, s).filter(has_price(pr)) == if p.price == pr {
            s.filter(has_price(pr)).push(p)
        } else {
            s.filter(has_price(pr))
        },
    decreases s.len(),
{
    reveal(Seq::filter);
    broadcast use group_filter_ensures;

    let pred = has_price(pr);
    if s.len() == 0 {
        lemma_filter_single(p, pred);
        if p.price == pr {
            assert(seq![p] =~= s.filter(pred).push(p));
        }
    } else if p.price < s[0].price {
        Seq::filter_distributes_over_add(seq![p], s, pred);
        lemma_filter_single(p, pred);
        if p.price == pr {
            // no item of `s` costs `pr`: all prices exceed `p.price`
            assert(s.filter(pred).len() == 0) by {
                if s.filter(pred).len() > 0 {
                    let x = s.filter(pred)[0];
                    assert(pred(x));
                    assert(s.filter(pred).contains(x));
                    lemma_filter_subset(s, pred, x);
                    let k = choose|k: int| 0 <= k < s.len() && s[k] == x;
                    if k > 0 {
                        assert(s[0].price <= s[k].price);
                    }
                }
            }
            assert(seq![p] + s.filter(pred) =~= s.filter(pred).push(p));
        } else {
            assert(seq![p].filter(pred) + s.filter(pred) =~= s.filter(pred));
        }
    } else {
        let df = s.drop_first();
        assert(sorted_by_price(df)) by {
            assert(forall|i: int| 0 <= i < df.len() ==> df[i] == s[i + 1]);
        }
        lemma_insert_filter(p, df, pr);
        let ins = insert_by_price(p, df);
        Seq::filter_distributes_over_add(seq![s[0]], ins, pred);
        Seq::filter_distributes_over_add(seq![s[0]], df, pred);
        assert(s =~= seq![s[0]] + df);
        if p.price == pr {
            assert(seq![s[0]].filter(pred) + df.filter(pred).push(p) =~= (seq![s[0]].filter(pred)
                + df.filter(pred)).push(p));
        }
    }
}

/// The sorted plan has exactly the catalog's items, ordered by price.
pub proof fn lemma_sort_sorted(s: Seq<Product>)
    ensures
        sorted_by_price(sort_by_price_spec(s)),
        sort_by_price_spec(s).len() == s.len(),
    decreases s.len(),
{
    if s.len() > 0 {
        lemma_sort_sorted(s.drop_last());
        lemma_insert_sorted(s.last(), sort_by_price_spec(s.drop_last()));
        lemma_insert_len(s.last(), sort_by_price_spec(s.drop_last()));
    }
}

/// Law: sorting is a permutation — the plan holds the catalog's items,
/// each exactly as often as the catalog does.
pub proof fn lemma_sort_permutation(s: Seq<Product>)
    ensures
        sort_by_price_spec(s).to_multiset() == s.to_multiset(),
    decreases s.len(),
{
    broadcast use group_to_multiset_ensures;

    if s.len() > 0 {
        lemma_sort_permutation(s.drop_last());
        lemma_insert_multiset(s.last(), sort_by_price_spec(s.drop_last()));
        assert(s =~= s.drop_last().push(s.last()));
    }
}

/// Law: sorting by price is stable — the items of any one price stand
/// in the plan in the order the catalog gave them.
pub proof fn lemma_sort_stable(s: Seq<Product>, pr: u64)
    ensures
        sort_by_price_spec(s).filter(has_price(pr)) == s.filter(has_price(pr)),
    decreases s.len(),
{
    reveal(Seq::filter);
    if s.len() > 0 {
        let dl = s.drop_last();
        lemma_sort_stable(dl, pr);
        lemma_sort_sorted(dl);
        lemma_insert_filter(s.last(), sort_by_price_spec(dl), pr);
        assert(s.drop_last() == dl);
        if has_price(pr)(s.last()) {
            assert(s.filter(has_price(pr)) == dl.filter(has_price(pr)).push(s.last()));
        } else {
            assert(s.filter(has_price(pr)) == dl.filter(has_price(pr)));
        }
    }
}

/// The running total over a prefix never decreases as the prefix grows.
pub proof fn lemma_prefix_total_monotone(s: Seq<Product>, i: int, j: int)
    requires
        0 <= i <= j,
    ensures
        prefix_total(s, i) <= prefix_total(s, j),
    decreases j,
{
    if i < j {
        lemma_prefix_total_monotone(s, i, j - 1);
    }
}

/// Law: while the greedy plan stays within the budget at `k` items, the
/// running total after each earlier item is monotonically non-decreasing
/// and never exceeds the budget.
pub proof fn lemma_greedy_totals(s: Seq<Product>, budget: u64, k: int, i: int, j: int)
    requires
        0 <= i <= j <= k <= s.len(),
        prefix_total(s, k) <= budget,
    ensures
        prefix_total(s, i) <= prefix_total(s, j),
        prefix_total(s, j) <= budget,
{
    lemma_prefix_total_monotone(s, i, j);
    lemma_prefix_total_monotone(s, j, k);
}

proof fn lemma_insert_by_price_at(p: Product, s: Seq<Product>, j: int)
    requires
        sorted_by_price(s),
        0 <= j <= s.len(),
        forall|m: int| 0 <= m < j ==> s[m].price <= p.price,
        j < s.len() ==> s[j].price > p.price,
    ensures
        insert_by_price(p, s) == s.insert(j, p),
    decreases s.len(),
{
    if s.len() == 0 {
        assert(seq![p] =~= s.insert(0, p));
    } else if p.price < s[0].price {
        assert(j == 0);
        assert(seq![p] + s =~= s.insert(0, p));
    } else {
        assert(j > 0) by {
            assert(s[0].price <= p.price);
        }
        let df = s.drop_first();
        assert(sorted_by_price(df)) by {
            assert(forall|i: int| 0 <= i < df.len() ==> df[i] == s[i + 1]);
        }
        assert(forall|m: int| 0 <= m < j - 1 ==> #[trigger] df[m].price <= p.price);
        assert(j - 1 < df.len() ==> df[j - 1].price > p.price);
        lemma_insert_by_price_at(p, df, j - 1);
        assert(seq![s[0]] + df.insert(j - 1, p) =~= s.insert(j, p));
    }
}

/// Reorders the catalog by ascending price with a stable insertion
/// sort, as the planner's display expects it.
pub fn sort_by_price(products: &mut Vec<Product>)
    ensures
        final(products)@ == sort_by_price_spec(old(products)@),
{
    let ghost orig = old(products)@;
    let mut i: usize = 0;
    while i < products.len()
        invariant
            i <= products@.len(),
            products@.len() == orig.len(),
            products@ == sort_by_price_spec(orig.subrange(0, i as int)) + orig.subrange(
                i as int,
                orig.len() as int,
            ),
        decreases products@.len() - i,
    {
        let ghost prefix = sort_by_price_spec(orig.subrange(0, i as int));
        proof {
            lemma_sort_sorted(orig.subrange(0, i as int));
        }
        let p = products.remove(i);
        proof {
            assert(p == orig[i as int]);
            assert(products@ =~= prefix + orig.subrange(i + 1, orig.len() as int));
        }
        let mut j: usize = 0;
        while j < i && products[j].price <= p.price
            invariant
                j <= i,
                i < orig.len(),
                products@ =~= prefix + orig.subrange(i + 1, orig.len() as int),
                prefix.len() == i,
                forall|m: int| 0 <= m < j ==> #[trigger] prefix[m].price <= p.price,
            decreases i - j,
        {
            proof {
                assert(products@[j as int] == prefix[j as int]);
            }
            j = j + 1;
        }
        proof {
            if j < i {
                assert(products@[j as int] == prefix[j as int]);
            }
            lemma_insert_by_price_at(p, prefix, j as int);
        }
        products.insert(j, p);
        proof {
            assert(products@ =~= insert_by_price(p, prefix) + orig.subrange(
                i + 1,
                orig.len() as int,
            ));
            assert(orig.subrange(0, i + 1).drop_last() =~= orig.subrange(0, i as int));
            assert(orig.subrange(0, i + 1).last() == orig[i as int]);
        }
        i = i + 1;
    }
    proof {
        assert(orig.subrange(0, orig.len() as int) =~= orig);
        assert(products@ =~= sort_by_price_spec(orig));
    }
}

/// The advisory plan: how many of the cheapest items fit the budget,
/// what they cost together, and what is left of the budget.
pub struct Plan {
    pub count: usize,
    pub total_affordable: u64,
    pub remaining_budget: u64,
}

/// Walks the sorted catalog cheapest-first, taking items while the
/// running total stays within the budget. The result is the longest
/// affordable prefix, its cost, and the budget that remains.
pub fn greedy_prefix(products: &Vec<Product>, budget: u64) -> (r: Plan)
    requires
        sorted_by_price(products@),
    ensures
        r.count <= products@.len(),
        r.total_affordable == prefix_total(products@, r.count as int),
        r.total_affordable <= budget,
        r.remaining_budget == budget - r.total_affordable,
        forall|m: int| 0 <= m <= r.count ==> prefix_total(products@, m) <= budget,
        forall|m: int| r.count < m <= products@.len() ==> prefix_total(products@, m) > budget,
{
    let n = products.len();
    let mut count: usize = 0;
    let mut total: u64 = 0;
    while count < n && products[count].price <= budget - total
        invariant
            n == products@.len(),
            count <= n,
            total == prefix_total(products@, count as int),
            total <= budget,
        decreases n - count,
    {
        total = total + products[count].price;
        count = count + 1;
    }
    proof {
        assert forall|m: int| 0 <= m <= count implies prefix_total(products@, m) <= budget by {
            lemma_prefix_total_monotone(products@, m, count as int);
        }
        assert forall|m: int| count < m <= products@.len() implies prefix_total(products@, m)
            > budget by {
            lemma_prefix_total_monotone(products@, count + 1, m);
        }
    }
    Plan { count, total_affordable: total, remaining_budget: budget - total }
}

/// The cost of every entered item, in the original order. `None` when
/// the sum does not fit the price type.
pub fn catalog_total(products: &Vec<Product>) -> (r: Option<u64>)
    ensures
        match r {
            Some(t) => t == catalog_total_spec(products@),
            None => catalog_total_spec(products@) > u64::MAX,
        },
{
    let n = products.len();
    let mut total: u64 = 0;
    let mut i: usize = 0;
    while i < n
        invariant
            n == products@.len(),
            i <= n,
            total == prefix_total(products@, i as int),
        decreases n - i,
    {
        let price = products[i].price;
        if price > u64::MAX - total {
            proof {
                lemma_prefix_total_monotone(products@, i + 1, n as int);
            }
            return None;
        }
        total = total + price;
        i = i + 1;
    }
    Some(total)
}

/// Whether the user can afford every entered item, and if not, by how
/// much the catalog's total exceeds the budget.
#[derive(PartialEq, Eq, Structural, Clone, Copy, Debug)]
pub enum Decision {
    AffordAll,
    Shortfall { amount: u64 },
}

/// The affordability rule: all items together within the budget pass;
/// otherwise the shortfall is the difference.
pub open spec fn decide_spec(total: u64, budget: u64) -> Decision {
    if total <= budget {
        Decision::AffordAll
    } else {
        Decision::Shortfall { amount: (total - budget) as u64 }
    }
}

/// Decides affordability from a total and a budget.
pub fn decide(total: u64, budget: u64) -> (d: Decision)
    ensures
        d == decide_spec(total, budget),
{
    if total <= budget {
        Decision::AffordAll
    } else {
        Decision::Shortfall { amount: total - budget }
    }
}

/// The overall affordability decision: it weighs the sum of every
/// entered product against the budget, never the greedy subset.
pub fn decide_catalog(products: &Vec<Product>, budget: u64) -> (d: Option<Decision>)
    ensures
        match d {
            Some(dec) => {
                &&& (dec is AffordAll <==> catalog_total_spec(products@) <= budget)
                &&& (dec matches Decision::Shortfall { amount } ==> amount == catalog_total_spec(
                    products@,
                ) - budget)
            },
            None => catalog_total_spec(products@) > u64::MAX,
        },
{
    match catalog_total(products) {
        Some(total) => Some(decide(total, budget)),
        None => None,
    }
}

} // verus!
