use vstd::prelude::*;

use crate::codec::{Length, ReadFrom, WriteTo};
use crate::stream::{push_bytes, ByteReader};
use crate::DecodeError;

verus! {

/// The encoding of a sequence of values: each element's bytes in order, with
/// no count and no separators.
pub open spec fn seq_enc<W: WriteTo>(vs: Seq<W>) -> Seq<u8>
    decreases vs.len(),
{
    if vs.len() == 0 {
        Seq::empty()
    } else {
        vs[0].enc() + seq_enc(vs.drop_first())
    }
}

/// Extending a prefix of `s` by one element appends that element's encoding.
pub proof fn lemma_seq_enc_take_snoc<W: WriteTo>(s: Seq<W>, i: int)
    requires
        0 <= i < s.len(),
    ensures
        seq_enc(s.take(i + 1)) == seq_enc(s.take(i)) + s[i].enc(),
    decreases i,
{
    if i == 0 {
        let t1 = s.take(1);
        assert(t1.len() == 1);
        assert(t1[0] == s[0]);
        assert(t1.drop_first() =~= Seq::<W>::empty());
        assert(seq_enc(t1) == t1[0].enc() + seq_enc(Seq::<W>::empty()));
        assert(seq_enc(Seq::<W>::empty()) == Seq::<u8>::empty());
        assert(s.take(0).len() == 0);
        assert(seq_enc(t1) =~= seq_enc(s.take(0)) + s[0].enc());
    } else {
        let t = s.drop_first();
        lemma_seq_enc_take_snoc(t, i - 1);
        assert(s.take(i + 1).drop_first() =~= t.take(i));
        assert(s.take(i).drop_first() =~= t.take(i - 1));
        assert(s.take(i + 1)[0] == s[0]);
        assert(s.take(i)[0] == s[0]);
        assert(seq_enc(s.take(i + 1)) == s[0].enc() + (seq_enc(t.take(i - 1)) + t[i - 1].enc()));
        assert(s[0].enc() + (seq_enc(t.take(i - 1)) + t[i - 1].enc()) =~= (s[0].enc() + seq_enc(
            t.take(i - 1),
        )) + t[i - 1].enc());
    }
}

/// A prefix of a sequence never encodes to more bytes than the whole.
pub proof fn lemma_seq_enc_prefix_len<W: WriteTo>(s: Seq<W>, i: int)
    requires
        0 <= i <= s.len(),
    ensures
        seq_enc(s.take(i)).len() <= seq_enc(s).len(),
    decreases s.len() - i,
{
    if i == s.len() {
        assert(s.take(i) =~= s);
    } else {
        lemma_seq_enc_take_snoc(s, i);
        lemma_seq_enc_prefix_len(s, i + 1);
    }
}

/// The greedy sequence decode relation for success: under a positive budget,
/// one element is decoded and the rest of the sequence is decoded from the
/// shrunk budget, until the budget reaches exactly zero.
pub open spec fn seq_dec_ok<R: ReadFrom>(avail: Seq<u8>, budget: nat, vs: Seq<R>) -> bool
    decreases budget,
{
    if budget == 0 {
        vs.len() == 0
    } else {
        &&& vs.len() > 0
        &&& exists|rem1: nat|
            {
                &&& #[trigger] R::dec_ok(avail, budget, vs[0], rem1)
                &&& rem1 < budget
                &&& seq_dec_ok(avail.skip((budget - rem1) as int), rem1, vs.drop_first())
            }
    }
}

/// The greedy sequence decode relation for failure: some element's read
/// fails, or an element consumes no bytes at all while budget remains, so
/// that the sequence could never fill its budget.
pub open spec fn seq_dec_err<R: ReadFrom>(avail: Seq<u8>, budget: nat, e: DecodeError) -> bool
    decreases budget,
{
    &&& budget > 0
    &&& {
        ||| R::dec_err(avail, budget, e)
        ||| (exists|v: R, rem1: nat|
            #[trigger] R::dec_ok(avail, budget, v, rem1) && rem1 == budget && e
                == DecodeError::BudgetExhausted)
        ||| (exists|v: R, rem1: nat|
            #[trigger] R::dec_ok(avail, budget, v, rem1) && rem1 < budget && seq_dec_err::<R>(
                avail.skip((budget - rem1) as int),
                rem1,
                e,
            ))
    }
}

/// The bytes a failed greedy sequence read consumes: the whole of every
/// element that was decoded, plus whatever the failing element consumed.
pub open spec fn seq_err_consumed<R: ReadFrom>(
    avail: Seq<u8>,
    budget: nat,
    e: DecodeError,
    consumed: nat,
) -> bool
    decreases budget,
{
    &&& budget > 0
    &&& {
        ||| R::err_consumed(avail, budget, e, consumed)
        ||| (exists|v: R, rem1: nat| #[trigger] R::dec_ok(avail, budget, v, rem1) && rem1 == budget)
            && consumed == 0
        ||| (exists|v: R, rem1: nat|
            #[trigger] R::dec_ok(avail, budget, v, rem1) && rem1 < budget && consumed >= budget
                - rem1 && seq_err_consumed::<R>(
                avail.skip((budget - rem1) as int),
                rem1,
                e,
                (consumed - (budget - rem1)) as nat,
            ))
    }
}

/// Soundness of the sequence decode relation: the decoded elements' joint
/// encoding is exactly as long as the `budget` bytes that were consumed.
pub proof fn lemma_seq_dec_sound<R: ReadFrom>(avail: Seq<u8>, budget: nat, vs: Seq<R>)
    requires
        seq_dec_ok(avail, budget, vs),
    ensures
        budget <= avail.len(),
        seq_enc(vs).len() == budget,
    decreases budget,
{
    if budget == 0 {
    } else {
        let rem1 = choose|rem1: nat|
            {
                &&& #[trigger] R::dec_ok(avail, budget, vs[0], rem1)
                &&& rem1 < budget
                &&& seq_dec_ok(avail.skip((budget - rem1) as int), rem1, vs.drop_first())
            };
        R::lemma_dec_sound(avail, budget, vs[0], rem1);
        let c = (budget - rem1) as int;
        lemma_seq_dec_sound::<R>(avail.skip(c), rem1, vs.drop_first());
        assert(seq_enc(vs) == vs[0].enc() + seq_enc(vs.drop_first()));
    }
}

/// Round trip for sequences: decoding the written bytes under an exactly
/// matching budget cannot fail and reproduces the elements' encodings.
/// Elements must themselves round-trip, consume at least one byte each, and
/// (unless the sequence has at most one element) not be budget-terminal.
pub proof fn lemma_seq_round_trip<R: ReadFrom>(vs: Seq<R>, extra: Seq<u8>, vs2: Seq<R>, e: DecodeError)
    requires
        forall|i: int|
            0 <= i < vs.len() ==> R::round_trip_safe(#[trigger] vs[i]) && vs[i].enc().len() > 0,
        !R::budget_terminal() || vs.len() <= 1,
    ensures
        seq_dec_ok(seq_enc(vs) + extra, seq_enc(vs).len() as nat, vs2) ==> seq_enc(vs2) == seq_enc(
            vs,
        ),
        !seq_dec_err::<R>(seq_enc(vs) + extra, seq_enc(vs).len() as nat, e),
    decreases vs.len(),
{
    let avail = seq_enc(vs) + extra;
    let budget = seq_enc(vs).len() as nat;
    if vs.len() == 0 {
        if seq_dec_ok(avail, budget, vs2) {
            assert(seq_enc(vs2) =~= seq_enc(vs));
        }
    } else {
        let head = vs[0];
        let tail = vs.drop_first();
        assert(forall|i: int|
            0 <= i < tail.len() ==> R::round_trip_safe(#[trigger] tail[i]) && tail[i].enc().len()
                > 0) by {
            assert(forall|i: int| 0 <= i < tail.len() ==> tail[i] == vs[i + 1]);
        }
        assert(avail =~= head.enc() + (seq_enc(tail) + extra));
        assert(budget == head.enc().len() + seq_enc(tail).len());
        if R::budget_terminal() {
            assert(tail.len() == 0);
            assert(seq_enc(tail).len() == 0);
        }
        if seq_dec_ok(avail, budget, vs2) {
            let rem1 = choose|rem1: nat|
                {
                    &&& #[trigger] R::dec_ok(avail, budget, vs2[0], rem1)
                    &&& rem1 < budget
                    &&& seq_dec_ok(avail.skip((budget - rem1) as int), rem1, vs2.drop_first())
                };
            R::lemma_round_trip(head, seq_enc(tail) + extra, budget, vs2[0], rem1, e);
            assert(vs2[0].enc() == head.enc());
            assert(rem1 == seq_enc(tail).len());
            assert(avail.skip((budget - rem1) as int) =~= seq_enc(tail) + extra);
            lemma_seq_round_trip::<R>(tail, extra, vs2.drop_first(), e);
            assert(seq_enc(vs2) == vs2[0].enc() + seq_enc(vs2.drop_first()));
            assert(vs2[0].enc() + seq_enc(vs2.drop_first()) =~= seq_enc(vs));
        }
        if seq_dec_err::<R>(avail, budget, e) {
            if R::dec_err(avail, budget, e) {
                R::lemma_round_trip(head, seq_enc(tail) + extra, budget, head, 0, e);
            }
            if exists|v: R, rem1: nat|
                #[trigger] R::dec_ok(avail, budget, v, rem1) && rem1 == budget && e
                    == DecodeError::BudgetExhausted {
                let (v, rem1) = choose|v: R, rem1: nat|
                    #[trigger] R::dec_ok(avail, budget, v, rem1) && rem1 == budget && e
                        == DecodeError::BudgetExhausted;
                R::lemma_round_trip(head, seq_enc(tail) + extra, budget, v, rem1, e);
            }
            if exists|v: R, rem1: nat|
                #[trigger] R::dec_ok(avail, budget, v, rem1) && rem1 < budget && seq_dec_err::<R>(
                    avail.skip((budget - rem1) as int),
                    rem1,
                    e,
                ) {
                let (v, rem1) = choose|v: R, rem1: nat|
                    #[trigger] R::dec_ok(avail, budget, v, rem1) && rem1 < budget
                        && seq_dec_err::<R>(avail.skip((budget - rem1) as int), rem1, e);
                R::lemma_round_trip(head, seq_enc(tail) + extra, budget, v, rem1, e);
                assert(rem1 == seq_enc(tail).len());
                assert(avail.skip((budget - rem1) as int) =~= seq_enc(tail) + extra);
                lemma_seq_round_trip::<R>(tail, extra, vs2, e);
            }
            assert(false);
        }
    }
}

/// Decode elements greedily until `budget` reaches zero, appending them to
/// `out`; fails if an element's read fails or consumes nothing.
fn read_seq_elems<R: ReadFrom>(reader: &mut ByteReader, budget: usize, out: &mut Vec<R>) -> (r:
    Result<(), DecodeError>)
    requires
        old(reader).wf(),
    ensures
        final(reader).wf(),
        final(reader).data@ == old(reader).data@,
        old(reader).pos <= final(reader).pos,
        final(reader).pos - old(reader).pos <= budget,
        match r {
            Ok(()) => {
                &&& final(reader).pos == old(reader).pos + budget
                &&& final(out)@.len() >= old(out)@.len()
                &&& final(out)@.take(old(out)@.len() as int) == old(out)@
                &&& seq_dec_ok(
                    old(reader).avail(),
                    budget as nat,
                    final(out)@.skip(old(out)@.len() as int),
                )
            },
            Err(e) => {
                &&& seq_dec_err::<R>(old(reader).avail(), budget as nat, e)
                &&& seq_err_consumed::<R>(
                    old(reader).avail(),
                    budget as nat,
                    e,
                    (final(reader).pos - old(reader).pos) as nat,
                )
            },
        },
    decreases budget,
{
    if budget == 0 {
        proof {
            assert(out@.take(out@.len() as int) =~= out@);
            assert(out@.skip(out@.len() as int) =~= Seq::<R>::empty());
        }
        return Ok(());
    }
    match R::read_from(reader, budget) {
        Err(e) => Err(e),
        Ok((head, rem1)) => {
            if rem1 >= budget {
                proof {
                    assert(R::dec_ok(old(reader).avail(), budget as nat, head, rem1 as nat)
                        && rem1 as nat == budget as nat);
                }
                return Err(DecodeError::BudgetExhausted);
            }
            let ghost mid_reader = *reader;
            let ghost out0 = out@;
            out.push(head);
            let ghost out1 = out@;
            match read_seq_elems(reader, rem1, out) {
                Err(e) => {
                    proof {
                        let avail = old(reader).avail();
                        let c = (budget - rem1) as int;
                        assert(mid_reader.avail() =~= avail.skip(c));
                        assert(R::dec_ok(avail, budget as nat, head, rem1 as nat) && (
                        rem1 as nat) < budget as nat && (reader.pos - old(reader).pos) as nat
                            >= budget - rem1 && seq_err_consumed::<R>(
                            avail.skip(c),
                            rem1 as nat,
                            e,
                            ((reader.pos - old(reader).pos) - (budget - rem1)) as nat,
                        ));
                    }
                    Err(e)
                },
                Ok(()) => {
                    proof {
                        let avail = old(reader).avail();
                        let c = (budget - rem1) as int;
                        assert(mid_reader.avail() =~= avail.skip(c));
                        let suffix = out@.skip(out0.len() as int);
                        assert(out@.take(out1.len() as int) == out1);
                        assert(out@.take(out0.len() as int) =~= out0);
                        assert(suffix.len() > 0);
                        assert(suffix[0] == out1[out0.len() as int]);
                        assert(suffix[0] == head);
                        assert(suffix.drop_first() =~= out@.skip(out1.len() as int));
                        assert(R::dec_ok(avail, budget as nat, suffix[0], rem1 as nat) && (
                        rem1 as nat) < budget as nat && seq_dec_ok(
                            avail.skip((budget as nat - rem1 as nat) as int),
                            rem1 as nat,
                            suffix.drop_first(),
                        ));
                        assert(seq_dec_ok(avail, budget as nat, suffix));
                    }
                    Ok(())
                },
            }
        },
    }
}

impl<W: WriteTo> WriteTo for Vec<W> {
    open spec fn enc(&self) -> Seq<u8> {
        seq_enc(self@)
    }

    fn write_to(&self, writer: &mut Vec<u8>) {
        let mut i: usize = 0;
        proof {
            assert(writer@ =~= old(writer)@ + seq_enc(self@.take(0)));
        }
        while i < self.len()
            invariant
                i <= self@.len(),
                writer@ == old(writer)@ + seq_enc(self@.take(i as int)),
            decreases self@.len() - i,
        {
            let elem = &self[i];
            elem.write_to(writer);
            proof {
                lemma_seq_enc_take_snoc(self@, i as int);
                assert(writer@ =~= old(writer)@ + seq_enc(self@.take(i + 1)));
            }
            i += 1;
        }
        proof {
            assert(self@.take(self@.len() as int) =~= self@);
        }
    }
}

impl<R: ReadFrom> ReadFrom for Vec<R> {
    open spec fn dec_ok(avail: Seq<u8>, budget: nat, v: Self, rem: nat) -> bool {
        &&& rem == 0
        &&& seq_dec_ok(avail, budget, v@)
    }

    open spec fn dec_err(avail: Seq<u8>, budget: nat, e: DecodeError) -> bool {
        seq_dec_err::<R>(avail, budget, e)
    }

    open spec fn err_consumed(avail: Seq<u8>, budget: nat, e: DecodeError, consumed: nat) -> bool {
        seq_err_consumed::<R>(avail, budget, e, consumed)
    }

    open spec fn budget_terminal() -> bool {
        true
    }

    open spec fn round_trip_safe(v: Self) -> bool {
        &&& forall|i: int|
            0 <= i < v@.len() ==> R::round_trip_safe(#[trigger] v@[i]) && v@[i].enc().len() > 0
        &&& !R::budget_terminal() || v@.len() <= 1
    }

    fn read_from(reader: &mut ByteReader, budget: usize) -> (r: Result<(Self, usize), DecodeError>) {
        let mut out: Vec<R> = Vec::new();
        match read_seq_elems(reader, budget, &mut out) {
            Err(e) => Err(e),
            Ok(()) => {
                proof {
                    assert(out@.skip(0) =~= out@);
                }
                Ok((out, 0))
            },
        }
    }

    proof fn lemma_dec_sound(avail: Seq<u8>, budget: nat, v: Self, rem: nat) {
        lemma_seq_dec_sound::<R>(avail, budget, v@);
    }

    proof fn lemma_round_trip(v: Self, extra: Seq<u8>, budget: nat, v2: Self, rem: nat, e: DecodeError) {
        lemma_seq_round_trip::<R>(v@, extra, v2@, e);
    }
}

impl<T: Length> Length for Vec<T> {
    fn length(&self) -> (r: usize) {
        let mut total: usize = 0;
        let mut i: usize = 0;
        proof {
            assert(seq_enc(self@.take(0)) =~= Seq::<u8>::empty());
        }
        while i < self.len()
            invariant
                i <= self@.len(),
                seq_enc(self@).len() <= usize::MAX,
                total == seq_enc(self@.take(i as int)).len(),
            decreases self@.len() - i,
        {
            proof {
                lemma_seq_enc_take_snoc(self@, i as int);
                lemma_seq_enc_prefix_len(self@, i + 1);
            }
            let elem = &self[i];
            total = total + elem.length();
            i += 1;
        }
        proof {
            assert(self@.take(self@.len() as int) =~= self@);
        }
        total
    }
}

impl WriteTo for Vec<u8> {
    open spec fn enc(&self) -> Seq<u8> {
        self@
    }

    fn write_to(&self, writer: &mut Vec<u8>) {
        push_bytes(writer, self);
    }
}

impl ReadFrom for Vec<u8> {
    open spec fn dec_ok(avail: Seq<u8>, budget: nat, v: Self, rem: nat) -> bool {
        &&& budget <= avail.len()
        &&& v@ == avail.take(budget as int)
        &&& rem == 0
    }

    open spec fn dec_err(avail: Seq<u8>, budget: nat, e: DecodeError) -> bool {
        avail.len() < budget && e == DecodeError::TruncatedInput
    }

    open spec fn err_consumed(avail: Seq<u8>, budget: nat, e: DecodeError, consumed: nat) -> bool {
        consumed == 0
    }

    open spec fn budget_terminal() -> bool {
        true
    }

    open spec fn round_trip_safe(v: Self) -> bool {
        true
    }

    fn read_from(reader: &mut ByteReader, budget: usize) -> (r: Result<(Self, usize), DecodeError>) {
        match reader.take_bytes(budget) {
            None => Err(DecodeError::TruncatedInput),
            Some(bytes) => Ok((bytes, 0)),
        }
    }

    proof fn lemma_dec_sound(avail: Seq<u8>, budget: nat, v: Self, rem: nat) {
    }

    proof fn lemma_round_trip(v: Self, extra: Seq<u8>, budget: nat, v2: Self, rem: nat, e: DecodeError) {
        assert((v@ + extra).take(v@.len() as int) =~= v@);
    }
}

impl Length for Vec<u8> {
    fn length(&self) -> (r: usize) {
        self.len()
    }
}

/// Round trip at the value level: decoding the written bytes of a raw byte
/// buffer under its exact length yields an equal buffer with no budget left.
pub proof fn lemma_buffer_value_round_trip(v: Vec<u8>, v2: Vec<u8>, rem: nat)
    requires
        <Vec<u8> as ReadFrom>::dec_ok(v@, v@.len() as nat, v2, rem),
    ensures
        v2@ == v@,
        rem == 0,
{
    assert(v@.take(v@.len() as int) =~= v@);
}

} // verus!
