//! SelectionEngine: a pure state machine that matches typed characters
//! against the live code set to resolve, disambiguate, or abort a cell
//! selection. The outcome of a keystroke is a function of the code list, the
//! current input buffer and the new character alone.

use vstd::prelude::*;

use crate::strutil::push_char;
use crate::strutil::spec_is_prefix;
use crate::strutil::str_starts_with;

verus! {

/// Every code names its cell with exactly this many characters.
pub const CODE_LENGTH: usize = 2;

/// The observable state of a selection after a keystroke.
#[derive(Debug, Clone, Copy, PartialEq, Eq, Structural)]
pub enum SelectionStatus {
    /// No input has been consumed yet; the buffer is empty.
    Idle,
    /// The buffer is a proper prefix of at least one code.
    Narrowing,
    /// The buffer equals exactly one code; the payload is that code's cell index.
    Resolved(usize),
    /// No code matched, or the code length was exhausted without a unique
    /// exact match; the buffer was reset to empty.
    Aborted,
}

/// Case folding to the casing convention of generated codes: ASCII lowercase
/// letters are raised, every other character is kept.
pub open spec fn fold_char(c: char) -> char {
    match c {
        'a' => 'A',
        'b' => 'B',
        'c' => 'C',
        'd' => 'D',
        'e' => 'E',
        'f' => 'F',
        'g' => 'G',
        'h' => 'H',
        'i' => 'I',
        'j' => 'J',
        'k' => 'K',
        'l' => 'L',
        'm' => 'M',
        'n' => 'N',
        'o' => 'O',
        'p' => 'P',
        'q' => 'Q',
        'r' => 'R',
        's' => 'S',
        't' => 'T',
        'u' => 'U',
        'v' => 'V',
        'w' => 'W',
        'x' => 'X',
        'y' => 'Y',
        'z' => 'Z',
        _ => c,
    }
}

/// Executable twin of [`fold_char`].
#[verifier::when_used_as_spec(fold_char)]
pub fn fold_key_char(c: char) -> (r: char)
    ensures
        r == fold_char(c),
{
    match c {
        'a' => 'A',
        'b' => 'B',
        'c' => 'C',
        'd' => 'D',
        'e' => 'E',
        'f' => 'F',
        'g' => 'G',
        'h' => 'H',
        'i' => 'I',
        'j' => 'J',
        'k' => 'K',
        'l' => 'L',
        'm' => 'M',
        'n' => 'N',
        'o' => 'O',
        'p' => 'P',
        'q' => 'Q',
        'r' => 'R',
        's' => 'S',
        't' => 'T',
        'u' => 'U',
        'v' => 'V',
        'w' => 'W',
        'x' => 'X',
        'y' => 'Y',
        'z' => 'Z',
        _ => c,
    }
}

/// The indices of the codes that the buffer is a prefix of, in increasing
/// order: the candidate set of the buffer.
pub open spec fn candidate_indices(codes: Seq<Seq<char>>, buf: Seq<char>) -> Seq<int>
    decreases codes.len(),
{
    if codes.len() == 0 {
        Seq::empty()
    } else {
        let before = candidate_indices(codes.drop_last(), buf);
        if spec_is_prefix(buf, codes.last()) {
            before.push(codes.len() - 1)
        } else {
            before
        }
    }
}

/// The candidate set holds exactly the indices whose codes the buffer
/// prefixes, each once, in increasing order.
pub proof fn lemma_candidate_indices_complete(codes: Seq<Seq<char>>, buf: Seq<char>)
    ensures
        forall|k: int|
            0 <= k < candidate_indices(codes, buf).len() ==> 0 <= #[trigger] candidate_indices(
                codes,
                buf,
            )[k] < codes.len() && spec_is_prefix(buf, codes[candidate_indices(codes, buf)[k]]),
        forall|i: int|
            0 <= i < codes.len() && spec_is_prefix(buf, codes[i]) ==> candidate_indices(
                codes,
                buf,
            ).contains(i),
        forall|k1: int, k2: int|
            0 <= k1 < k2 < candidate_indices(codes, buf).len() ==> candidate_indices(codes, buf)[k1]
                < candidate_indices(codes, buf)[k2],
    decreases codes.len(),
{
    if codes.len() > 0 {
        lemma_candidate_indices_complete(codes.drop_last(), buf);
        let before = candidate_indices(codes.drop_last(), buf);
        let cands = candidate_indices(codes, buf);
        assert forall|i: int|
            0 <= i < codes.len() && spec_is_prefix(buf, codes[i]) implies cands.contains(i) by {
            if i < codes.len() - 1 {
                assert(codes.drop_last()[i] == codes[i]);
                assert(before.contains(i));
                let k = choose|k: int| 0 <= k < before.len() && before[k] == i;
                assert(cands[k] == i);
            } else {
                assert(cands.last() == i);
            }
        }
    }
}

/// One keystroke of the selection engine: append the folded character, then
/// decide from the candidate set of the new buffer. Returns the new buffer
/// and the resulting status.
pub open spec fn spec_advance(codes: Seq<Seq<char>>, buffer: Seq<char>, c: char) -> (Seq<
    char,
>, SelectionStatus) {
    let buf2 = buffer.push(fold_char(c));
    let cands = candidate_indices(codes, buf2);
    if cands.len() == 0 {
        (Seq::empty(), SelectionStatus::Aborted)
    } else if cands.len() == 1 && codes[cands[0]] == buf2 {
        (buf2, SelectionStatus::Resolved(cands[0] as usize))
    } else if buf2.len() >= CODE_LENGTH {
        (Seq::empty(), SelectionStatus::Aborted)
    } else {
        (buf2, SelectionStatus::Narrowing)
    }
}

/// The engine run from an empty buffer over a whole input sequence, one
/// keystroke at a time.
pub open spec fn spec_run(codes: Seq<Seq<char>>, inputs: Seq<char>) -> (Seq<char>, SelectionStatus)
    decreases inputs.len(),
{
    if inputs.len() == 0 {
        (Seq::empty(), SelectionStatus::Idle)
    } else {
        let prev = spec_run(codes, inputs.drop_last());
        spec_advance(codes, prev.0, inputs.last())
    }
}

/// A keystroke whose extended buffer prefixes no code aborts the selection
/// and resets the buffer to empty.
pub proof fn lemma_abort_on_no_match(codes: Seq<Seq<char>>, buffer: Seq<char>, c: char)
    requires
        forall|i: int|
            0 <= i < codes.len() ==> !spec_is_prefix(buffer.push(fold_char(c)), #[trigger] codes[i]),
    ensures
        spec_advance(codes, buffer, c).0 == Seq::<char>::empty(),
        spec_advance(codes, buffer, c).1 == SelectionStatus::Aborted,
{
    let buf2 = buffer.push(fold_char(c));
    let cands = candidate_indices(codes, buf2);
    lemma_candidate_indices_complete(codes, buf2);
    if cands.len() > 0 {
        assert(0 <= cands[0] < codes.len() && spec_is_prefix(buf2, codes[cands[0]]));
    }
}

/// The engine is pure: identical code lists, buffers and characters give
/// identical new buffers and statuses.
pub proof fn lemma_advance_pure(
    codes_a: Seq<Seq<char>>,
    codes_b: Seq<Seq<char>>,
    buf_a: Seq<char>,
    buf_b: Seq<char>,
    c_a: char,
    c_b: char,
)
    requires
        codes_a == codes_b,
        buf_a == buf_b,
        c_a == c_b,
    ensures
        spec_advance(codes_a, buf_a, c_a) == spec_advance(codes_b, buf_b, c_b),
{
}

/// With unique codes of the fixed code length, a full-length input sequence
/// resolves a given cell exactly when its folded characters spell that cell's
/// code: each cell is reached by exactly one folded input sequence.
pub proof fn lemma_unique_resolution(codes: Seq<Seq<char>>, i: int, inputs: Seq<char>)
    requires
        forall|p: int, q: int| 0 <= p < q < codes.len() ==> codes[p] != codes[q],
        forall|p: int| 0 <= p < codes.len() ==> (#[trigger] codes[p]).len() == CODE_LENGTH,
        0 <= i < codes.len() <= usize::MAX,
        inputs.len() == CODE_LENGTH,
    ensures
        spec_run(codes, inputs).1 == SelectionStatus::Resolved(i as usize) <==> codes[i]
            == seq![fold_char(inputs[0]), fold_char(inputs[1])],
{
    let f0 = fold_char(inputs[0]);
    let f1 = fold_char(inputs[1]);
    let buf1 = Seq::<char>::empty().push(f0);
    let cands1 = candidate_indices(codes, buf1);
    lemma_candidate_indices_complete(codes, buf1);
    let dl = inputs.drop_last();
    assert(dl =~= seq![inputs[0]]);
    assert(dl.drop_last() =~= Seq::<char>::empty());
    assert(spec_run(codes, dl.drop_last()).0 == Seq::<char>::empty());
    assert(dl.last() == inputs[0]);
    assert(spec_run(codes, dl) == spec_advance(codes, Seq::<char>::empty(), inputs[0]));

    if cands1.len() == 0 {
        // The first keystroke aborts; the second starts over from an empty
        // buffer and cannot reach an exact match of a length-two code.
        let bufr = Seq::<char>::empty().push(f1);
        let candsr = candidate_indices(codes, bufr);
        lemma_candidate_indices_complete(codes, bufr);
        if candsr.len() >= 1 && codes[candsr[0]] == bufr {
            assert(codes[candsr[0]].len() == CODE_LENGTH);
            assert(false);
        }
        if codes[i] == seq![f0, f1] {
            assert(spec_is_prefix(buf1, codes[i])) by {
                assert(buf1 =~= codes[i].subrange(0, 1));
            }
            assert(cands1.contains(i));
            assert(false);
        }
    } else {
        assert(0 <= cands1[0] < codes.len());
        assert(codes[cands1[0]].len() == CODE_LENGTH);
        assert(codes[cands1[0]] != buf1);
        assert(spec_run(codes, inputs.drop_last()).0 == buf1);
        let buf2 = buf1.push(f1);
        assert(buf2 =~= seq![f0, f1]);
        let cands2 = candidate_indices(codes, buf2);
        lemma_candidate_indices_complete(codes, buf2);
        assert forall|k: int| 0 <= k < cands2.len() implies codes[cands2[k]] == buf2 by {
            assert(spec_is_prefix(buf2, codes[cands2[k]]));
            assert(codes[cands2[k]] =~= buf2);
        }
        if codes[i] == buf2 {
            assert(spec_is_prefix(buf2, codes[i])) by {
                assert(codes[i].subrange(0, buf2.len() as int) =~= buf2);
            }
            assert(cands2.contains(i));
            let k = choose|k: int| 0 <= k < cands2.len() && cands2[k] == i;
            // Any other candidate would carry the same code, against
            // uniqueness; the case split orders the two indices.
            assert forall|l: int| 0 <= l < cands2.len() implies cands2[l] == i by {
                if cands2[l] != i {
                    assert(codes[cands2[l]] == codes[i]);
                    if cands2[l] < i {
                        assert(false);
                    } else {
                        assert(false);
                    }
                }
            }
            if cands2.len() > 1 {
                assert(cands2[0] < cands2[1]);
                assert(false);
            }
            assert(cands2.len() == 1 && cands2[0] == i);
            assert(spec_run(codes, inputs).1 == SelectionStatus::Resolved(i as usize));
        } else {
            if cands2.len() >= 1 && codes[cands2[0]] == buf2 {
                // A resolved status would name an index whose code is buf2,
                // which codes[i] is not.
                assert(cands2[0] != i);
            }
            if spec_run(codes, inputs).1 == SelectionStatus::Resolved(i as usize) {
                assert(cands2.len() == 1 && codes[cands2[0]] == buf2);
                assert(cands2[0] as usize == i as usize);
                assert(0 <= cands2[0] < codes.len());
                assert(cands2[0] == i);
                assert(false);
            }
        }
    }
}

/// Feed one typed character to the engine. The result is exactly
/// [`spec_advance`] of the code list, the buffer and the character: a pure
/// function of its inputs.
pub fn advance(codes: &Vec<String>, buffer: &str, c: char) -> (r: (String, SelectionStatus))
    ensures
        r.0@ == spec_advance(codes.deep_view(), buffer@, c).0,
        r.1 == spec_advance(codes.deep_view(), buffer@, c).1,
{
    let ghost cv = codes.deep_view();
    let folded = fold_key_char(c);
    let mut buf2 = buffer.to_owned();
    push_char(&mut buf2, folded);
    let ghost b2 = buf2@;
    let ghost cands = candidate_indices(cv, b2);

    let n = codes.len();
    let mut count: usize = 0;
    let mut last: usize = 0;
    let mut i: usize = 0;
    while i < n
        invariant
            i <= n,
            n == cv.len(),
            cv == codes.deep_view(),
            b2 == buf2@,
            count == candidate_indices(cv.take(i as int), b2).len(),
            count <= i,
            count > 0 ==> last as int == candidate_indices(cv.take(i as int), b2).last(),
            count > 0 ==> last < i,
        decreases n - i,
    {
        proof {
            assert(cv.take(i as int + 1).drop_last() =~= cv.take(i as int));
            assert(cv.take(i as int + 1).last() == cv[i as int]);
        }
        if str_starts_with(codes[i].as_str(), buf2.as_str()) {
            count = count + 1;
            last = i;
        }
        i = i + 1;
    }
    proof {
        assert(cv.take(n as int) =~= cv);
    }

    if count == 0 {
        (String::new(), SelectionStatus::Aborted)
    } else if count == 1 && codes[last].eq(&buf2) {
        (buf2, SelectionStatus::Resolved(last))
    } else if buf2.unicode_len() >= CODE_LENGTH {
        (String::new(), SelectionStatus::Aborted)
    } else {
        (buf2, SelectionStatus::Narrowing)
    }
}

/// A selection in progress: nothing but the input buffer. The candidate set
/// is always derived from the snapshot's codes, never stored.
#[derive(Debug, Clone)]
pub struct SelectionState {
    pub buffer: String,
}

impl SelectionState {
    /// A fresh selection: the empty buffer.
    pub fn new() -> (s: SelectionState)
        ensures
            s.buffer@ == Seq::<char>::empty(),
    {
        SelectionState { buffer: String::new() }
    }

    /// Consume one keystroke against `codes`, updating the buffer as
    /// [`spec_advance`] prescribes, and report the resulting status.
    pub fn advance(&mut self, codes: &Vec<String>, c: char) -> (st: SelectionStatus)
        ensures
            final(self).buffer@ == spec_advance(codes.deep_view(), old(self).buffer@, c).0,
            st == spec_advance(codes.deep_view(), old(self).buffer@, c).1,
    {
        let (buffer, st) = advance(codes, self.buffer.as_str(), c);
        self.buffer = buffer;
        st
    }
}

} // verus!
