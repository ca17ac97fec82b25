//! The split of a sale price between the owner of a token and the
//! recipients of its royalties.

use crate::errors::ContractError;
use crate::names::{key_seq, Key, Name, Table};
use vstd::prelude::*;

verus! {

/// The whole of a price, in basis points.
pub const TEN_THOUSANDS: u32 = 10_000;

/// What a recipient is paid for each sale, by account.
pub struct Payout {
    pub payout: Table<String, u128>,
}

impl Payout {
    /// The recipients with their amounts, in the order in which they are paid.
    pub open spec fn view(&self) -> Seq<(Name, u128)> {
        self.payout.entries()
    }

    pub open spec fn wf(&self) -> bool {
        self.payout.wf()
    }
}

/// The share of `balance` that `bps` basis points stand for, rounded down.
pub open spec fn royalty_share(bps: nat, balance: nat) -> nat {
    bps * balance / 10_000
}

/// The basis points that go to others than `owner`.
pub open spec fn others_bps(royalty: Seq<(Name, u32)>, owner: Name) -> nat
    decreases royalty.len(),
{
    if royalty.len() == 0 {
        0
    } else if royalty.last().0 == owner {
        others_bps(royalty.drop_last(), owner)
    } else {
        others_bps(royalty.drop_last(), owner) + royalty.last().1 as nat
    }
}

/// The basis points of the whole table.
pub open spec fn total_bps(royalty: Seq<(Name, u32)>) -> nat
    decreases royalty.len(),
{
    if royalty.len() == 0 {
        0
    } else {
        total_bps(royalty.drop_last()) + royalty.last().1 as nat
    }
}

/// The payouts to the recipients other than `owner`, in the table's order.
pub open spec fn others_payouts(royalty: Seq<(Name, u32)>, owner: Name, balance: nat) -> Seq<
    (Name, u128),
>
    decreases royalty.len(),
{
    if royalty.len() == 0 {
        Seq::empty()
    } else if royalty.last().0 == owner {
        others_payouts(royalty.drop_last(), owner, balance)
    } else {
        others_payouts(royalty.drop_last(), owner, balance).push(
            (royalty.last().0, royalty_share(royalty.last().1 as nat, balance) as u128),
        )
    }
}

/// The split of `balance`: each other recipient's share, then the owner's,
/// which is the share of the basis points that the others leave.
pub open spec fn split_payouts(royalty: Seq<(Name, u32)>, owner: Name, balance: nat) -> Seq<
    (Name, u128),
> {
    others_payouts(royalty, owner, balance).push(
        (owner, royalty_share((10_000 - others_bps(royalty, owner)) as nat, balance) as u128),
    )
}

/// The sum of the amounts of a payout.
pub open spec fn total_paid(payouts: Seq<(Name, u128)>) -> nat
    decreases payouts.len(),
{
    if payouts.len() == 0 {
        0
    } else {
        total_paid(payouts.drop_last()) + payouts.last().1 as nat
    }
}

/// What the split fails with, if it fails.
pub open spec fn split_error(royalty: Seq<(Name, u32)>, owner: Name, max_len_payout: u32) -> Option<
    ContractError,
> {
    if royalty.len() > max_len_payout {
        Some(ContractError::TooManyRecipients)
    } else if others_bps(royalty, owner) > 10_000 {
        Some(ContractError::RoyaltyTooLarge)
    } else {
        None
    }
}

/// A share is at most the balance it is taken from.
pub proof fn lemma_share_bounds(bps: nat, balance: nat)
    requires
        bps <= 10_000,
    ensures
        royalty_share(bps, balance) <= balance,
        royalty_share(bps, balance) * 10_000 <= bps * balance,
        bps * balance < royalty_share(bps, balance) * 10_000 + 10_000,
{
    assert(bps * balance <= 10_000 * balance) by (nonlinear_arith)
        requires
            bps <= 10_000,
    ;
    assert(bps * balance / 10_000 <= balance) by (nonlinear_arith)
        requires
            bps * balance <= 10_000 * balance,
    ;
    assert((bps * balance / 10_000) * 10_000 <= bps * balance < (bps * balance / 10_000) * 10_000
        + 10_000) by (nonlinear_arith);
}

/// The share of `balance` that `royalty_percentage` basis points stand for.
pub fn royalty_to_payout(royalty_percentage: u32, amount_to_pay: u128) -> (r: u128)
    requires
        royalty_percentage <= 10_000,
    ensures
        r == royalty_share(royalty_percentage as nat, amount_to_pay as nat),
{
    let bps: u128 = royalty_percentage as u128;
    let whole: u128 = amount_to_pay / 10_000;
    let rest: u128 = amount_to_pay % 10_000;
    proof {
        let b = bps as int;
        let q = whole as int;
        let r = rest as int;
        let a = amount_to_pay as int;
        assert(a == q * 10_000 + r);
        assert(b * q <= q * 10_000) by (nonlinear_arith)
            requires
                0 <= b <= 10_000,
                0 <= q,
        ;
        assert(b * r <= 10_000 * 10_000) by (nonlinear_arith)
            requires
                0 <= b <= 10_000,
                0 <= r < 10_000,
        ;
        assert(b * a / 10_000 == b * q + b * r / 10_000) by (nonlinear_arith)
            requires
                a == q * 10_000 + r,
                0 <= b,
                0 <= q,
                0 <= r,
        ;
        lemma_share_bounds(bps as nat, amount_to_pay as nat);
        assert(b * r / 10_000 >= 0) by (nonlinear_arith)
            requires
                0 <= b,
                0 <= r,
        ;
    }
    bps * whole + bps * rest / 10_000
}


/// The basis points of a prefix are at most those of the whole table.
pub proof fn lemma_others_bps_prefix(royalty: Seq<(Name, u32)>, owner: Name, i: int)
    requires
        0 <= i <= royalty.len(),
    ensures
        others_bps(royalty.take(i), owner) <= others_bps(royalty, owner),
    decreases royalty.len() - i,
{
    if i == royalty.len() {
        assert(royalty.take(i) =~= royalty);
    } else {
        lemma_others_bps_prefix(royalty, owner, i + 1);
        assert(royalty.take(i + 1).drop_last() =~= royalty.take(i));
    }
}

/// The others' payouts go to keys of the table, and never to the owner.
pub proof fn lemma_others_payouts_keys(royalty: Seq<(Name, u32)>, owner: Name, balance: nat)
    ensures
        forall|k: Name| #[trigger]
            key_seq(others_payouts(royalty, owner, balance)).contains(k) ==> key_seq(
                royalty,
            ).contains(k) && k != owner,
        key_seq(royalty).no_duplicates() ==> key_seq(
            others_payouts(royalty, owner, balance),
        ).no_duplicates(),
        others_payouts(royalty, owner, balance).len() <= royalty.len(),
    decreases royalty.len(),
{
    if royalty.len() > 0 {
        let rest = royalty.drop_last();
        lemma_others_payouts_keys(rest, owner, balance);
        let p = others_payouts(royalty, owner, balance);
        let q = others_payouts(rest, owner, balance);
        assert forall|k: Name| #[trigger] key_seq(p).contains(k) implies key_seq(
            royalty,
        ).contains(k) && k != owner by {
            let j = choose|j: int| 0 <= j < key_seq(p).len() && key_seq(p)[j] == k;
            if j < q.len() {
                assert(key_seq(q)[j] == k);
                assert(key_seq(q).contains(k));
                let m = choose|m: int| 0 <= m < key_seq(rest).len() && key_seq(rest)[m] == k;
                assert(key_seq(royalty)[m] == k);
            } else {
                assert(key_seq(royalty)[royalty.len() - 1] == k);
            }
        }
        if key_seq(royalty).no_duplicates() {
            assert(key_seq(rest) =~= key_seq(royalty).drop_last());
            assert(key_seq(rest).no_duplicates());
            if royalty.last().0 != owner {
                let k = royalty.last().0;
                if key_seq(q).contains(k) {
                    let m = choose|m: int| 0 <= m < key_seq(rest).len() && key_seq(rest)[m] == k;
                    assert(key_seq(royalty)[m] == k);
                    assert(key_seq(royalty)[royalty.len() - 1] == k);
                    assert(false);
                }
                assert(key_seq(p) =~= key_seq(q).push(k));
                assert forall|a: int, b: int|
                    0 <= a < key_seq(p).len() && 0 <= b < key_seq(p).len() && a != b implies key_seq(
                    p,
                )[a] != key_seq(p)[b] by {
                    if a == q.len() {
                        assert(key_seq(q)[b] == key_seq(p)[b]);
                        assert(key_seq(q).contains(key_seq(p)[b]));
                    } else if b == q.len() {
                        assert(key_seq(q)[a] == key_seq(p)[a]);
                        assert(key_seq(q).contains(key_seq(p)[a]));
                    } else {
                        assert(key_seq(q)[a] == key_seq(p)[a]);
                        assert(key_seq(q)[b] == key_seq(p)[b]);
                    }
                }
            }
        }
    }
}

/// What a share leaves over, in ten-thousandths of a unit.
pub open spec fn share_rest(bps: nat, balance: nat) -> nat {
    (bps * balance) % 10_000
}

/// What the shares of the recipients other than `owner` leave over.
pub open spec fn others_rest(royalty: Seq<(Name, u32)>, owner: Name, balance: nat) -> nat
    decreases royalty.len(),
{
    if royalty.len() == 0 {
        0
    } else if royalty.last().0 == owner {
        others_rest(royalty.drop_last(), owner, balance)
    } else {
        others_rest(royalty.drop_last(), owner, balance) + share_rest(
            royalty.last().1 as nat,
            balance,
        )
    }
}

/// What all the shares of a split leave over, the owner's among them.
pub open spec fn split_rest(royalty: Seq<(Name, u32)>, owner: Name, balance: nat) -> nat {
    others_rest(royalty, owner, balance) + share_rest(
        (10_000 - others_bps(royalty, owner)) as nat,
        balance,
    )
}

/// A share and what it leaves over make up the basis points of the balance.
pub proof fn lemma_share_rest(bps: nat, balance: nat)
    ensures
        royalty_share(bps, balance) * 10_000 + share_rest(bps, balance) == bps * balance,
        share_rest(bps, balance) < 10_000,
{
    let x = bps * balance;
    assert((x / 10_000) * 10_000 + x % 10_000 == x && x % 10_000 < 10_000) by (nonlinear_arith);
}

/// What the others are paid and what their shares leave over make up their
/// basis points of the balance.
pub proof fn lemma_others_rest(royalty: Seq<(Name, u32)>, owner: Name, balance: nat)
    requires
        others_bps(royalty, owner) <= 10_000,
        balance <= u128::MAX,
    ensures
        total_paid(others_payouts(royalty, owner, balance)) * 10_000 + others_rest(
            royalty,
            owner,
            balance,
        ) == others_bps(royalty, owner) * balance,
        others_rest(royalty, owner, balance) <= others_payouts(royalty, owner, balance).len()
            * 9_999,
    decreases royalty.len(),
{
    if royalty.len() > 0 {
        let rest = royalty.drop_last();
        lemma_others_rest(rest, owner, balance);
        if royalty.last().0 != owner {
            let b = royalty.last().1 as nat;
            let q = others_payouts(rest, owner, balance);
            let p = others_payouts(royalty, owner, balance);
            let share = royalty_share(b, balance);
            lemma_share_bounds(b, balance);
            lemma_share_rest(b, balance);
            assert(p.drop_last() =~= q);
            assert(p.last().1 == share);
            let bo = others_bps(rest, owner);
            let tq = total_paid(q);
            assert((bo + b) * balance == bo * balance + b * balance) by (nonlinear_arith);
            assert((tq + share) * 10_000 == tq * 10_000 + share * 10_000) by (nonlinear_arith);
            assert((q.len() + 1) * 9_999 == q.len() * 9_999 + 9_999) by (nonlinear_arith);
        }
    } else {
        assert(others_bps(royalty, owner) * balance == 0) by (nonlinear_arith)
            requires
                others_bps(royalty, owner) == 0,
        ;
    }
}

/// What a split pays is the balance less what its shares leave over: the
/// remainders add up to whole units, and those are the units that nobody
/// is paid.
pub proof fn lemma_split_exact(royalty: Seq<(Name, u32)>, owner: Name, balance: nat)
    requires
        others_bps(royalty, owner) <= 10_000,
        balance <= u128::MAX,
    ensures
        total_paid(split_payouts(royalty, owner, balance)) * 10_000 + split_rest(
            royalty,
            owner,
            balance,
        ) == balance * 10_000,
{
    lemma_others_rest(royalty, owner, balance);
    let o = others_payouts(royalty, owner, balance);
    let s = split_payouts(royalty, owner, balance);
    let bo = others_bps(royalty, owner);
    let rest = (10_000 - bo) as nat;
    let share = royalty_share(rest, balance);
    lemma_share_bounds(rest, balance);
    lemma_share_rest(rest, balance);
    assert(s.drop_last() =~= o);
    assert(s.last().1 == share);
    let t = total_paid(o);
    assert(bo * balance + rest * balance == balance * 10_000) by (nonlinear_arith)
        requires
            bo + rest == 10_000,
    ;
    assert((t + share) * 10_000 == t * 10_000 + share * 10_000) by (nonlinear_arith);
}

/// The split never pays more than the balance, and it falls short of it by
/// less than one unit for each recipient: by at most as many units as there
/// are recipients other than the owner.
pub proof fn lemma_split_total(royalty: Seq<(Name, u32)>, owner: Name, balance: nat)
    requires
        others_bps(royalty, owner) <= 10_000,
        balance <= u128::MAX,
    ensures
        total_paid(split_payouts(royalty, owner, balance)) <= balance,
        balance - total_paid(split_payouts(royalty, owner, balance)) <= others_payouts(
            royalty,
            owner,
            balance,
        ).len(),
{
    lemma_split_exact(royalty, owner, balance);
    lemma_others_rest(royalty, owner, balance);
    lemma_share_rest((10_000 - others_bps(royalty, owner)) as nat, balance);
    let t = total_paid(split_payouts(royalty, owner, balance));
    let r = split_rest(royalty, owner, balance);
    let n = others_payouts(royalty, owner, balance).len();
    assert(t <= balance && balance - t <= n) by (nonlinear_arith)
        requires
            t * 10_000 + r == balance * 10_000,
            r < n * 9_999 + 10_000,
    ;
}

/// A split pays the balance or one unit less exactly where its shares
/// leave over one unit at most.
pub proof fn lemma_split_dust(royalty: Seq<(Name, u32)>, owner: Name, balance: nat)
    requires
        others_bps(royalty, owner) <= 10_000,
        balance <= u128::MAX,
    ensures
        split_rest(royalty, owner, balance) <= 10_000 <==> (total_paid(
            split_payouts(royalty, owner, balance),
        ) == balance || total_paid(split_payouts(royalty, owner, balance)) == balance - 1),
{
    lemma_split_exact(royalty, owner, balance);
    let t = total_paid(split_payouts(royalty, owner, balance));
    let r = split_rest(royalty, owner, balance);
    assert(r <= 10_000 <==> (t == balance || t == balance - 1)) by (nonlinear_arith)
        requires
            t * 10_000 + r == balance * 10_000,
    ;
}

/// With at most one recipient beside the owner, the split pays the balance
/// or one unit less.
pub proof fn lemma_split_dust_of_two(royalty: Seq<(Name, u32)>, owner: Name, balance: nat)
    requires
        others_bps(royalty, owner) <= 10_000,
        others_payouts(royalty, owner, balance).len() <= 1,
        balance <= u128::MAX,
    ensures
        total_paid(split_payouts(royalty, owner, balance)) == balance || total_paid(
            split_payouts(royalty, owner, balance),
        ) == balance - 1,
{
    lemma_split_total(royalty, owner, balance);
}

/// The basis points of a prefix are at most those of the whole table.
pub proof fn lemma_total_bps_prefix(royalty: Seq<(Name, u32)>, i: int)
    requires
        0 <= i <= royalty.len(),
    ensures
        total_bps(royalty.take(i)) <= total_bps(royalty),
    decreases royalty.len() - i,
{
    if i == royalty.len() {
        assert(royalty.take(i) =~= royalty);
    } else {
        lemma_total_bps_prefix(royalty, i + 1);
        assert(royalty.take(i + 1).drop_last() =~= royalty.take(i));
    }
}

/// Whether the royalties stay below the whole of a price.
pub fn royalty_below_whole(royalty: &Table<String, u32>) -> (b: bool)
    requires
        royalty.wf(),
    ensures
        b == (total_bps(royalty.entries()) < 10_000),
{
    let ghost entries = royalty.entries();
    let n: usize = royalty.len();
    let mut total: u32 = 0;
    let mut i: usize = 0;
    assert(entries.take(0) =~= Seq::empty());
    while i < n
        invariant
            royalty.wf(),
            entries == royalty.entries(),
            n == entries.len(),
            i <= n,
            total < 10_000,
            total == total_bps(entries.take(i as int)),
        decreases n - i,
    {
        let bps: u32 = *royalty.value_at(i);
        proof {
            assert(entries.take(i + 1).drop_last() =~= entries.take(i as int));
            assert(entries.take(i + 1).last() == entries[i as int]);
            lemma_total_bps_prefix(entries, i + 1);
        }
        if bps >= 10_000 - total {
            return false;
        }
        total = total + bps;
        i += 1;
    }
    assert(entries.take(n as int) =~= entries);
    true
}

/// The split of `balance` between `owner_id` and the recipients of `royalty`.
pub fn royalty_split(
    owner_id: &String,
    royalty: &Table<String, u32>,
    balance: u128,
    max_len_payout: u32,
) -> (r: Result<Payout, ContractError>)
    requires
        royalty.wf(),
    ensures
        match r {
            Ok(p) => split_error(royalty.entries(), owner_id@, max_len_payout) is None && p.wf()
                && p@ == split_payouts(royalty.entries(), owner_id@, balance as nat)
                && total_paid(p@) <= balance && balance - total_paid(p@) <= p@.len() - 1,
            Err(e) => split_error(royalty.entries(), owner_id@, max_len_payout) == Some(e),
        },
{
    let n: usize = royalty.len();
    if n as u128 > max_len_payout as u128 {
        return Err(ContractError::TooManyRecipients);
    }
    let ghost entries = royalty.entries();
    let ghost owner = owner_id@;
    let ghost bal = balance as nat;
    let mut total: u32 = 0;
    let mut payout: Table<String, u128> = Table::new();
    let mut i: usize = 0;
    assert(entries.take(0) =~= Seq::empty());
    while i < n
        invariant
            royalty.wf(),
            entries == royalty.entries(),
            owner == owner_id@,
            bal == balance as nat,
            n == entries.len(),
            n <= max_len_payout,
            i <= n,
            total <= 10_000,
            total == others_bps(entries.take(i as int), owner),
            payout.wf(),
            payout.entries() == others_payouts(entries.take(i as int), owner, bal),
        decreases n - i,
    {
        let key = royalty.key_at(i);
        let bps: u32 = *royalty.value_at(i);
        proof {
            assert(entries.take(i + 1).drop_last() =~= entries.take(i as int));
            assert(entries.take(i + 1).last() == entries[i as int]);
            lemma_others_bps_prefix(entries, owner, i + 1);
        }
        if !key.same(owner_id) {
            assert(others_bps(entries.take(i + 1), owner) == total + bps);
            if bps > 10_000 - total {
                return Err(ContractError::RoyaltyTooLarge);
            }
            total = total + bps;
            let amount: u128 = royalty_to_payout(bps, balance);
            proof {
                lemma_share_bounds(bps as nat, bal);
                lemma_others_payouts_keys(entries.take(i as int), owner, bal);
                let before = payout.entries();
                if key_seq(before).contains(key@) {
                    let m = choose|m: int|
                        0 <= m < key_seq(entries.take(i as int)).len() && key_seq(
                            entries.take(i as int),
                        )[m] == key@;
                    assert(key_seq(entries)[m] == key@);
                    assert(key_seq(entries)[i as int] == key@);
                    assert(false);
                }
            }
            payout.insert(key.duplicate(), amount);
        }
        i += 1;
    }
    proof {
        assert(entries.take(n as int) =~= entries);
        lemma_others_payouts_keys(entries, owner, bal);
        lemma_share_bounds((10_000 - total) as nat, bal);
        lemma_split_total(entries, owner, bal);
    }
    let rest: u128 = royalty_to_payout(10_000 - total, balance);
    payout.insert(owner_id.duplicate(), rest);
    Ok(Payout { payout })
}

} // verus!
