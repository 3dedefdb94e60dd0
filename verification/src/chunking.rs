//! Splitting queued batches into upload commands of bounded size, taken
//! round-robin so that one large batch does not hold back the others.

use vstd::prelude::*;
use vstd::arithmetic::div_mod::{lemma_fundamental_div_mod, lemma_mod_pos_bound};
use vstd::seq_lib::{lemma_flatten_concat, lemma_multiset_commutative};

verus! {

/// How many commands of at most `n` records a batch of `len` records needs.
pub open spec fn chunk_count(len: nat, n: nat) -> nat {
    if len == 0 || n == 0 {
        0
    } else {
        ((len - 1) as nat / n + 1) as nat
    }
}

/// The smaller of two naturals.
pub open spec fn min_nat(a: nat, b: nat) -> nat {
    if a < b {
        a
    } else {
        b
    }
}

/// The part of `s` that its `k`-th command carries when commands carry at
/// most `n` records: `s[k*n .. (k+1)*n]`, cut at the end of `s`.
pub open spec fn chunk_of<A>(s: Seq<A>, k: nat, n: nat) -> Seq<A> {
    s.subrange(min_nat(k * n, s.len()) as int, min_nat((k + 1) * n, s.len()) as int)
}

/// Round `r` of the plan: the `r`-th command of every batch that has one,
/// in batch order.
pub open spec fn round_chunks<A>(bs: Seq<Seq<A>>, r: nat, n: nat) -> Seq<Seq<A>>
    decreases bs.len(),
{
    if bs.len() == 0 {
        seq![]
    } else {
        let rest = round_chunks(bs.drop_last(), r, n);
        if r < chunk_count(bs.last().len(), n) {
            rest.push(chunk_of(bs.last(), r, n))
        } else {
            rest
        }
    }
}

/// The first `rounds` rounds of the plan, one after the other.
pub open spec fn plan_rounds<A>(bs: Seq<Seq<A>>, rounds: nat, n: nat) -> Seq<Seq<A>>
    decreases rounds,
{
    if rounds == 0 {
        seq![]
    } else {
        plan_rounds(bs, (rounds - 1) as nat, n) + round_chunks(bs, (rounds - 1) as nat, n)
    }
}

/// The largest number of commands any one batch needs.
pub open spec fn max_chunk_count<A>(bs: Seq<Seq<A>>, n: nat) -> nat
    decreases bs.len(),
{
    if bs.len() == 0 {
        0
    } else {
        let m = max_chunk_count(bs.drop_last(), n);
        let c = chunk_count(bs.last().len(), n);
        if c > m {
            c
        } else {
            m
        }
    }
}

/// The commands that upload the batches `bs` with at most `n` records each:
/// round after round, until every batch has been sent whole.
pub open spec fn upload_plan<A>(bs: Seq<Seq<A>>, n: nat) -> Seq<Seq<A>> {
    plan_rounds(bs, max_chunk_count(bs, n), n)
}

/// The first `m` elements of every batch, batch after batch.
pub open spec fn taken_records<A>(bs: Seq<Seq<A>>, m: nat) -> Seq<A>
    decreases bs.len(),
{
    if bs.len() == 0 {
        seq![]
    } else {
        taken_records(bs.drop_last(), m) + bs.last().take(min_nat(m, bs.last().len()) as int)
    }
}

/// Arithmetic of one command: the `r`-th command of a batch of `len` exists
/// exactly when `r * n < len`, and it then carries between 1 and `n` records.
pub proof fn lemma_chunk_bounds(len: nat, r: nat, n: nat)
    requires
        n > 0,
    ensures
        (r < chunk_count(len, n)) == (r * n < len),
        r < chunk_count(len, n) ==> 0 < min_nat((r + 1) * n, len) - r * n <= n,
        chunk_count(len, n) <= len,
        chunk_count(len, n) * n >= len,
        (r + 1) * n == r * n + n,
{
    assert((r + 1) * n == r * n + n) by (nonlinear_arith);
    if len > 0 {
        let q = (len - 1) as nat / n;
        lemma_fundamental_div_mod((len - 1) as int, n as int);
        lemma_mod_pos_bound((len - 1) as int, n as int);
        let m = (len - 1) as int % n as int;
        assert(q * n <= len - 1 && len - 1 < (q + 1) * n) by (nonlinear_arith)
            requires
                n > 0,
                len - 1 == n * q + m,
                0 <= m < n,
        ;
        assert(r <= q ==> r * n <= q * n) by (nonlinear_arith)
            requires
                n > 0,
        ;
        assert(r > q ==> r * n >= (q + 1) * n) by (nonlinear_arith)
            requires
                n > 0,
        ;
        assert((r + 1) * n == r * n + n) by (nonlinear_arith);
        assert(q <= len - 1) by (nonlinear_arith)
            requires
                n > 0,
                len - 1 == n * q + m,
                0 <= m,
                q >= 0,
        ;
    }
}

/// Taking a longer prefix of a batch adds the next command's records.
pub proof fn lemma_take_chunk<A>(s: Seq<A>, r: nat, n: nat)
    requires
        n > 0,
    ensures
        s.take(min_nat((r + 1) * n, s.len()) as int) =~= s.take(min_nat(r * n, s.len()) as int)
            + chunk_of(s, r, n),
        r >= chunk_count(s.len(), n) ==> chunk_of(s, r, n).len() == 0,
{
    lemma_chunk_bounds(s.len(), r, n);
    assert((r + 1) * n == r * n + n) by (nonlinear_arith);
}

/// One round moves the taken prefixes forward by one command each.
pub proof fn lemma_round_multiset<A>(bs: Seq<Seq<A>>, r: nat, n: nat)
    requires
        n > 0,
    ensures
        taken_records(bs, (r + 1) * n).to_multiset() =~= taken_records(bs, r * n).to_multiset().add(
            round_chunks(bs, r, n).flatten().to_multiset(),
        ),
    decreases bs.len(),
{
    broadcast use vstd::multiset::group_multiset_axioms;

    if bs.len() == 0 {
        let e = Seq::<A>::empty();
        assert(round_chunks(bs, r, n).flatten() =~= e);
        assert(taken_records(bs, (r + 1) * n) =~= e);
        assert(taken_records(bs, r * n) =~= e);
        lemma_multiset_commutative(e, e);
        assert(e + e =~= e);
    } else {
        let rest = bs.drop_last();
        let b = bs.last();
        lemma_round_multiset(rest, r, n);
        lemma_take_chunk(b, r, n);
        let hi = b.take(min_nat((r + 1) * n, b.len()) as int);
        let lo = b.take(min_nat(r * n, b.len()) as int);
        let c = chunk_of(b, r, n);
        lemma_multiset_commutative(taken_records(rest, (r + 1) * n), hi);
        lemma_multiset_commutative(taken_records(rest, r * n), lo);
        lemma_multiset_commutative(lo, c);
        let rc = round_chunks(rest, r, n);
        let t_hi = taken_records(rest, (r + 1) * n);
        let t_lo = taken_records(rest, r * n);
        assert(taken_records(bs, (r + 1) * n) == t_hi + hi);
        assert(taken_records(bs, r * n) == t_lo + lo);
        lemma_multiset_commutative(t_lo + lo, rc.flatten());
        lemma_multiset_commutative(t_lo, lo);
        if r < chunk_count(b.len(), n) {
            rc.lemma_flatten_push(c);
            assert(round_chunks(bs, r, n) == rc.push(c));
            lemma_multiset_commutative(rc.flatten(), c);
            assert(round_chunks(bs, r, n).flatten().to_multiset() =~= rc.flatten().to_multiset().add(
                c.to_multiset(),
            ));
        } else {
            assert(c =~= Seq::<A>::empty());
            assert(lo + c =~= lo);
            assert(hi =~= lo);
            assert(round_chunks(bs, r, n) == rc);
        }
    }
}

/// Taking nothing of every batch takes nothing.
pub proof fn lemma_taken_nothing<A>(bs: Seq<Seq<A>>)
    ensures
        taken_records(bs, 0) =~= Seq::<A>::empty(),
    decreases bs.len(),
{
    if bs.len() > 0 {
        lemma_taken_nothing(bs.drop_last());
    }
}

/// After `rounds` rounds, the plan has carried the first `rounds * n`
/// records of every batch.
pub proof fn lemma_plan_rounds_multiset<A>(bs: Seq<Seq<A>>, rounds: nat, n: nat)
    requires
        n > 0,
    ensures
        plan_rounds(bs, rounds, n).flatten().to_multiset() =~= taken_records(
            bs,
            rounds * n,
        ).to_multiset(),
    decreases rounds,
{
    broadcast use vstd::multiset::group_multiset_axioms;

    if rounds == 0 {
        lemma_taken_nothing(bs);
        assert(rounds * n == 0);
        assert(plan_rounds(bs, rounds, n).flatten() =~= Seq::<A>::empty());
        assert(plan_rounds(bs, rounds, n).flatten() == taken_records(bs, rounds * n));
    } else {
        let p = (rounds - 1) as nat;
        lemma_plan_rounds_multiset(bs, p, n);
        lemma_flatten_concat(plan_rounds(bs, p, n), round_chunks(bs, p, n));
        lemma_multiset_commutative(plan_rounds(bs, p, n).flatten(), round_chunks(bs, p, n).flatten());
        lemma_round_multiset(bs, p, n);
    }
}

/// Every batch needs at most the largest command count, and unless there is
/// nothing to send, some batch needs exactly that many.
pub proof fn lemma_max_chunk_count<A>(bs: Seq<Seq<A>>, n: nat)
    ensures
        forall|i: int|
            0 <= i < bs.len() ==> #[trigger] chunk_count(bs[i].len(), n) <= max_chunk_count(bs, n),
        max_chunk_count(bs, n) == 0 || exists|i: int|
            0 <= i < bs.len() && #[trigger] chunk_count(bs[i].len(), n) == max_chunk_count(bs, n),
    decreases bs.len(),
{
    if bs.len() > 0 {
        let rest = bs.drop_last();
        lemma_max_chunk_count(rest, n);
        assert forall|i: int| 0 <= i < bs.len() implies #[trigger] chunk_count(bs[i].len(), n)
            <= max_chunk_count(bs, n) by {
            if i < rest.len() {
                assert(bs[i] == rest[i]);
            }
        }
        if max_chunk_count(bs, n) != 0 {
            if chunk_count(bs.last().len(), n) > max_chunk_count(rest, n) {
                assert(chunk_count(bs[bs.len() - 1].len(), n) == max_chunk_count(bs, n));
            } else {
                let i = choose|i: int|
                    0 <= i < rest.len() && #[trigger] chunk_count(rest[i].len(), n)
                        == max_chunk_count(rest, n);
                assert(bs[i] == rest[i]);
                assert(chunk_count(bs[i].len(), n) == max_chunk_count(bs, n));
            }
        }
    }
}

/// Taking at least a whole batch of every batch takes all of them.
pub proof fn lemma_taken_all<A>(bs: Seq<Seq<A>>, m: nat)
    requires
        forall|i: int| 0 <= i < bs.len() ==> #[trigger] bs[i].len() <= m,
    ensures
        taken_records(bs, m) =~= bs.flatten_alt(),
    decreases bs.len(),
{
    if bs.len() > 0 {
        let rest = bs.drop_last();
        assert forall|i: int| 0 <= i < rest.len() implies #[trigger] rest[i].len() <= m by {
            assert(rest[i] == bs[i]);
        }
        lemma_taken_all(rest, m);
        assert(bs[bs.len() - 1].len() <= m);
        assert(bs.last().take(bs.last().len() as int) =~= bs.last());
    }
}

/// The upload plan carries every queued record exactly once: what the
/// commands carry, taken together, is what the batches hold.
pub proof fn lemma_upload_plan_covers_every_record_once<A>(bs: Seq<Seq<A>>, n: nat)
    requires
        n > 0,
    ensures
        upload_plan(bs, n).flatten().to_multiset() =~= bs.flatten().to_multiset(),
{
    let m = max_chunk_count(bs, n);
    lemma_plan_rounds_multiset(bs, m, n);
    lemma_max_chunk_count(bs, n);
    assert forall|i: int| 0 <= i < bs.len() implies #[trigger] bs[i].len() <= m * n by {
        lemma_chunk_bounds(bs[i].len(), 0, n);
        assert(chunk_count(bs[i].len(), n) <= m);
        assert(chunk_count(bs[i].len(), n) * n <= m * n) by (nonlinear_arith)
            requires
                chunk_count(bs[i].len(), n) <= m,
        ;
    }
    lemma_taken_all(bs, m * n);
    bs.lemma_flatten_and_flatten_alt_are_equivalent();
}

/// Every command of a round carries between 1 and `n` records.
pub proof fn lemma_round_chunk_sizes<A>(bs: Seq<Seq<A>>, r: nat, n: nat)
    requires
        n > 0,
    ensures
        forall|i: int|
            0 <= i < round_chunks(bs, r, n).len() ==> 0 < (#[trigger] round_chunks(
                bs,
                r,
                n,
            )[i]).len() <= n,
    decreases bs.len(),
{
    if bs.len() > 0 {
        lemma_round_chunk_sizes(bs.drop_last(), r, n);
        lemma_chunk_bounds(bs.last().len(), r, n);
        let rest = round_chunks(bs.drop_last(), r, n);
        assert forall|i: int| 0 <= i < round_chunks(bs, r, n).len() implies 0 < (
        #[trigger] round_chunks(bs, r, n)[i]).len() <= n by {
            if i < rest.len() {
                assert(round_chunks(bs, r, n)[i] == rest[i]);
            }
        }
    }
}

/// Every command of the first `rounds` rounds carries between 1 and `n` records.
pub proof fn lemma_plan_rounds_chunk_sizes<A>(bs: Seq<Seq<A>>, rounds: nat, n: nat)
    requires
        n > 0,
    ensures
        forall|i: int|
            0 <= i < plan_rounds(bs, rounds, n).len() ==> 0 < (#[trigger] plan_rounds(
                bs,
                rounds,
                n,
            )[i]).len() <= n,
    decreases rounds,
{
    if rounds > 0 {
        let p = (rounds - 1) as nat;
        lemma_plan_rounds_chunk_sizes(bs, p, n);
        lemma_round_chunk_sizes(bs, p, n);
        let a = plan_rounds(bs, p, n);
        let b = round_chunks(bs, p, n);
        assert forall|i: int| 0 <= i < plan_rounds(bs, rounds, n).len() implies 0 < (
        #[trigger] plan_rounds(bs, rounds, n)[i]).len() <= n by {
            if i < a.len() {
                assert(plan_rounds(bs, rounds, n)[i] == a[i]);
            } else {
                assert(plan_rounds(bs, rounds, n)[i] == b[i - a.len()]);
            }
        }
    }
}

/// No upload command is empty, and none carries more than `n` records.
pub proof fn lemma_upload_plan_command_sizes<A>(bs: Seq<Seq<A>>, n: nat)
    requires
        n > 0,
    ensures
        forall|i: int|
            0 <= i < upload_plan(bs, n).len() ==> 0 < (#[trigger] upload_plan(bs, n)[i]).len()
                <= n,
{
    lemma_plan_rounds_chunk_sizes(bs, max_chunk_count(bs, n), n);
}

} // verus!
