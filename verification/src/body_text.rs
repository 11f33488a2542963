//! The text of a page's body: the trimmed text nodes of a walk, joined by
//! single spaces, without what stands below a marked element, and cut at a
//! fixed number of bytes.

use crate::dom::{enters, is_entered, DomEvent};
use crate::encoding::{
    byte_len, lemma_encode_concat, lemma_prefix_boundary, lemma_prefix_byte_len,
};
use crate::text::{trim, trimmed};
use vstd::prelude::*;
use vstd::string::StringExecFns;
use vstd::string::StringSliceAdditionalSpecFns;
use vstd::utf8::*;

verus! {

/// The most bytes of body text that are kept.
pub const MAX_TEXT_CONTENT_LEN: usize = 1_000_000;

/// The longest initial segment of `frag` that takes no more than `budget`
/// bytes.
pub open spec fn fitting(frag: Seq<char>, budget: int) -> Seq<char>
    decreases frag.len(),
{
    if byte_len(frag) <= budget || frag.len() == 0 {
        frag
    } else {
        fitting(frag.drop_last(), budget)
    }
}

/// `fitting` is the one initial segment that fits while the segment one
/// character longer does not.
pub proof fn lemma_fitting(frag: Seq<char>, budget: int, head: Seq<char>)
    requires
        head.len() <= frag.len(),
        frag.subrange(0, head.len() as int) == head,
        byte_len(head) <= budget,
        head.len() < frag.len() ==> byte_len(frag.subrange(0, (head.len() + 1) as int)) > budget,
    ensures
        fitting(frag, budget) == head,
    decreases frag.len() - head.len(),
{
    if head.len() == frag.len() {
        assert(frag =~= head);
    } else {
        lemma_prefix_byte_len(frag, (head.len() + 1) as int);
        let shorter = frag.drop_last();
        assert(shorter.subrange(0, head.len() as int) =~= head);
        if head.len() < shorter.len() {
            let n = (head.len() + 1) as int;
            assert(shorter.subrange(0, n) =~= frag.subrange(0, n));
        }
        lemma_fitting(shorter, budget, head);
    }
}

/// What `fitting` keeps fits.
pub proof fn lemma_fitting_fits(frag: Seq<char>, budget: int)
    requires
        0 <= budget,
    ensures
        byte_len(fitting(frag, budget)) <= budget,
    decreases frag.len(),
{
    if byte_len(frag) <= budget {
    } else if frag.len() == 0 {
    } else {
        lemma_fitting_fits(frag.drop_last(), budget);
    }
}

/// The length of a string in bytes.
pub fn byte_length(s: &str) -> (n: usize)
    ensures
        n == byte_len(s@),
{
    s.as_bytes().len()
}

/// A single ASCII character takes one byte.
pub proof fn lemma_push_ascii_byte_len(s: Seq<char>, c: char)
    requires
        c as u32 <= 0x7f,
    ensures
        byte_len(s.push(c)) == byte_len(s) + 1,
{
    assert(s.push(c) =~= s + seq![c]);
    lemma_encode_concat(s, seq![c]);
    reveal_with_fuel(encode_utf8, 2);
}

/// The longest initial segment of `frag` that takes no more than `budget`
/// bytes.
pub fn take_fitting<'a>(frag: &'a str, budget: usize) -> (r: &'a str)
    ensures
        r@ == fitting(frag@, budget as int),
{
    if byte_length(frag) <= budget {
        return frag;
    }
    proof {
        encode_utf8_valid_utf8(frag@);
        encode_utf8_decode_utf8(frag@);
    }
    let ghost bytes = frag.spec_bytes();
    let mut k: usize = budget;
    while !frag.is_char_boundary(k)
        invariant
            bytes == frag.spec_bytes(),
            valid_utf8(bytes),
            k <= budget < bytes.len(),
            forall|j: int| k < j <= budget ==> !is_char_boundary(bytes, j),
        decreases k,
    {
        k -= 1;
    }
    let (head, tail) = frag.split_at(k);
    proof {
        encode_utf8_decode_utf8(head@);
        encode_utf8_decode_utf8(tail@);
        decode_utf8_split(bytes, k as int);
        assert(frag@ == head@ + tail@);
        assert(frag@.subrange(0, head@.len() as int) =~= head@);
        assert(tail.spec_bytes().len() > 0);
        assert(tail@.len() > 0);
        let longer = frag@.subrange(0, (head@.len() + 1) as int);
        lemma_prefix_byte_len(frag@, (head@.len() + 1) as int);
        lemma_prefix_byte_len(longer, head@.len() as int);
        assert(longer.subrange(0, head@.len() as int) =~= head@);
        encode_utf8_valid_utf8(longer);
        let m = byte_len(longer) as int;
        lemma_prefix_boundary(encode_utf8(longer), bytes);
        assert(byte_len(head@) == k);
        assert(longer =~= head@ + seq![tail@[0]]);
        lemma_encode_concat(head@, seq![tail@[0]]);
        assert(encode_utf8(seq![tail@[0]]).len() > 0) by {
            reveal_with_fuel(encode_utf8, 2);
        }
        assert(m > k);
        lemma_fitting(frag@, budget as int, head@);
    }
    head
}

/// Where a walk stands: the text gathered, the marks of the nodes that are
/// open, how many of the open nodes belong to the part that is read, whether
/// that part has been left, and whether the text is full.
pub struct TextState {
    pub out: Seq<char>,
    pub open: Seq<bool>,
    pub depth: nat,
    pub left: bool,
    pub full: bool,
}

/// The state before the first event.
pub open spec fn initial_state() -> TextState {
    TextState { out: seq![], open: seq![], depth: 0, left: false, full: false }
}

/// Whether nothing changes the state any more: the text is full, or the part
/// that is read has been left.
pub open spec fn is_done(s: TextState) -> bool {
    s.full || s.left
}

/// The text after one more fragment, and whether the fragment had to be cut.
/// An empty fragment changes nothing. A space parts the fragment from what
/// came before.
pub open spec fn with_fragment(out: Seq<char>, frag: Seq<char>) -> (Seq<char>, bool) {
    if frag.len() == 0 {
        (out, false)
    } else {
        let parted = if out.len() > 0 {
            out.push(' ')
        } else {
            out
        };
        let remaining = MAX_TEXT_CONTENT_LEN - byte_len(parted);
        if byte_len(frag) <= remaining {
            (parted + frag, false)
        } else {
            (parted + fitting(frag, remaining), true)
        }
    }
}

/// The state after one event of a walk in which the selector `start` tells
/// where to begin and the selector `marked` what to hide. The part that is
/// read begins with the first node that `start` selects and ends where that
/// node is left. Inside it, a text node adds its trimmed text unless a node
/// that `marked` selects is open around it, wherever in the tree that node
/// stands. Once the text is full, or a fragment had to be cut, or the part
/// has been left, nothing changes any more.
pub open spec fn step(s: TextState, e: DomEvent, start: int, marked: int) -> TextState {
    if is_done(s) {
        s
    } else {
        match e {
            DomEvent::Close => TextState {
                open: if s.open.len() > 0 {
                    s.open.drop_last()
                } else {
                    s.open
                },
                depth: if s.depth > 0 {
                    (s.depth - 1) as nat
                } else {
                    0
                },
                left: s.depth == 1,
                ..s
            },
            DomEvent::Open { text, matches, attributes } => {
                if s.depth == 0 {
                    TextState {
                        open: s.open.push(enters(e, marked)),
                        depth: if enters(e, start) {
                            1
                        } else {
                            0
                        },
                        ..s
                    }
                } else if byte_len(s.out) >= MAX_TEXT_CONTENT_LEN {
                    TextState { full: true, ..s }
                } else {
                    let (out, full) = match text {
                        Some(t) => if s.open.contains(true) {
                            (s.out, false)
                        } else {
                            with_fragment(s.out, trimmed(t@))
                        },
                        None => (s.out, false),
                    };
                    TextState {
                        out,
                        open: s.open.push(enters(e, marked)),
                        depth: s.depth + 1,
                        full,
                        ..s
                    }
                }
            },
        }
    }
}

/// The state after the first `n` events of a walk.
pub open spec fn walked(events: Seq<DomEvent>, start: int, marked: int, n: int) -> TextState
    decreases n,
{
    if n <= 0 {
        initial_state()
    } else {
        step(walked(events, start, marked, n - 1), events[n - 1], start, marked)
    }
}

/// The text of a walk.
pub open spec fn text_of(events: Seq<DomEvent>, start: int, marked: int) -> Seq<char> {
    walked(events, start, marked, events.len() as int).out
}

/// How many of the marks are set.
pub open spec fn count_marks(open: Seq<bool>) -> nat
    decreases open.len(),
{
    if open.len() == 0 {
        0
    } else {
        count_marks(open.drop_last()) + if open.last() {
            1nat
        } else {
            0nat
        }
    }
}

/// Some mark is set exactly where the count of set marks is not zero.
pub proof fn lemma_count_marks(open: Seq<bool>)
    ensures
        count_marks(open) > 0 <==> open.contains(true),
        count_marks(open) <= open.len(),
    decreases open.len(),
{
    if open.len() > 0 {
        lemma_count_marks(open.drop_last());
        if open.last() {
            assert(open[open.len() - 1] == true);
        } else if open.contains(true) {
            let i = choose|i: int| 0 <= i < open.len() && open[i] == true;
            assert(open.drop_last()[i] == true);
        } else if open.drop_last().contains(true) {
            let i = choose|i: int| 0 <= i < open.drop_last().len() && open.drop_last()[i] == true;
            assert(open[i] == true);
        }
    }
}

/// Gathers the text of a walk, with the positions of the selector that tells
/// where to begin and of the selector that tells what to hide.
pub fn collect_text(events: &Vec<DomEvent>, start: usize, marked: usize) -> (r: String)
    ensures
        r@ == text_of(events@, start as int, marked as int),
{
    let mut out = String::new();
    let mut open: Vec<bool> = Vec::new();
    let mut marks: usize = 0;
    let mut depth: usize = 0;
    let mut done = false;
    let ghost mut left = false;
    let ghost mut full = false;
    let mut i: usize = 0;
    proof {
        reveal_strlit(" ");
        assert(" "@ =~= seq![' ']);
    }
    while i < events.len() && !done
        invariant
            i <= events@.len(),
            " "@ == seq![' '],
            marks == count_marks(open@),
            depth <= open@.len(),
            done == (left || full),
            walked(events@, start as int, marked as int, i as int) == (TextState {
                out: out@,
                open: open@,
                depth: depth as nat,
                left,
                full,
            }),
        decreases events@.len() - i,
    {
        proof {
            lemma_count_marks(open@);
        }
        let ghost before = walked(events@, start as int, marked as int, i as int);
        let begins = is_entered(events, i, start);
        let hides = is_entered(events, i, marked);
        assert(begins == enters(events@[i as int], start as int));
        assert(hides == enters(events@[i as int], marked as int));
        match &events[i] {
            DomEvent::Close => {
                if depth == 1 {
                    done = true;
                    proof {
                        left = true;
                    }
                }
                if depth > 0 {
                    depth -= 1;
                }
                if open.len() > 0 {
                    let was = open.pop().unwrap();
                    if was {
                        marks -= 1;
                    }
                    assert(open@ =~= before.open.drop_last());
                }
            },
            DomEvent::Open { text, matches, attributes } => {
                if depth == 0 {
                    if begins {
                        depth = 1;
                    }
                    open.push(hides);
                    let above = open.len();
                    if hides {
                        assert(marks < above);
                        marks += 1;
                    }
                    assert(open@.drop_last() =~= before.open);
                } else if byte_length(out.as_str()) >= MAX_TEXT_CONTENT_LEN {
                    done = true;
                    proof {
                        full = true;
                    }
                } else {
                    match text {
                        Some(t) => {
                            if marks == 0 {
                                let frag = trim(t.as_str());
                                if !frag.is_empty() {
                                    if !out.as_str().is_empty() {
                                        out.append(" ");
                                        proof {
                                            assert(out@ =~= before.out.push(' '));
                                            lemma_push_ascii_byte_len(before.out, ' ');
                                        }
                                    }
                                    let remaining: usize = MAX_TEXT_CONTENT_LEN - byte_length(
                                        out.as_str(),
                                    );
                                    if byte_length(frag) <= remaining {
                                        out.append(frag);
                                    } else {
                                        out.append(take_fitting(frag, remaining));
                                        done = true;
                                        proof {
                                            full = true;
                                        }
                                    }
                                }
                            }
                        },
                        None => {},
                    }
                    open.push(hides);
                    let above = open.len();
                    assert(depth < above);
                    depth += 1;
                    if hides {
                        assert(marks < above);
                        marks += 1;
                    }
                    assert(open@.drop_last() =~= before.open);
                }
            },
        }
        i += 1;
    }
    proof {
        lemma_done_stays(events@, start as int, marked as int, i as int, events@.len() as int);
    }
    out
}

/// Once nothing changes the state any more, further events leave it as it
/// is.
pub proof fn lemma_done_stays(events: Seq<DomEvent>, start: int, marked: int, n: int, m: int)
    requires
        0 <= n <= m,
        is_done(walked(events, start, marked, n)) || n == m,
    ensures
        walked(events, start, marked, m) == walked(events, start, marked, n),
    decreases m - n,
{
    if n < m {
        lemma_done_stays(events, start, marked, n, m - 1);
    }
}

/// Adding a fragment never brings the text over the limit.
pub proof fn lemma_fragment_within_limit(out: Seq<char>, frag: Seq<char>)
    requires
        byte_len(out) < MAX_TEXT_CONTENT_LEN,
    ensures
        byte_len(with_fragment(out, frag).0) <= MAX_TEXT_CONTENT_LEN,
{
    if frag.len() > 0 {
        let parted = if out.len() > 0 {
            out.push(' ')
        } else {
            out
        };
        if out.len() > 0 {
            lemma_push_ascii_byte_len(out, ' ');
        }
        let remaining = MAX_TEXT_CONTENT_LEN - byte_len(parted);
        if byte_len(frag) <= remaining {
            lemma_encode_concat(parted, frag);
        } else {
            lemma_fitting_fits(frag, remaining);
            lemma_encode_concat(parted, fitting(frag, remaining));
        }
    }
}

/// Whatever the walk, the text gathered so far is within the limit.
pub proof fn lemma_walked_within_limit(events: Seq<DomEvent>, start: int, marked: int, n: int)
    requires
        0 <= n <= events.len(),
    ensures
        byte_len(walked(events, start, marked, n).out) <= MAX_TEXT_CONTENT_LEN,
    decreases n,
{
    if n > 0 {
        lemma_walked_within_limit(events, start, marked, n - 1);
        let s = walked(events, start, marked, n - 1);
        if !is_done(s) && byte_len(s.out) < MAX_TEXT_CONTENT_LEN {
            match events[n - 1] {
                DomEvent::Open { text: Some(t), matches, attributes } => {
                    lemma_fragment_within_limit(s.out, trimmed(t@));
                },
                _ => {},
            }
        }
    } else {
        assert(encode_utf8(Seq::<char>::empty()).len() == 0);
    }
}

/// The text of a walk never takes more than `MAX_TEXT_CONTENT_LEN` bytes.
pub proof fn lemma_text_within_limit(events: Seq<DomEvent>, start: int, marked: int)
    ensures
        byte_len(text_of(events, start, marked)) <= MAX_TEXT_CONTENT_LEN,
{
    lemma_walked_within_limit(events, start, marked, events.len() as int);
}

/// Whether two walks are the same up to the text of the nodes that stand
/// below a hidden node: wherever their events differ, both enter a node, of
/// which the two selectors say the same, while a node that `marked` selects
/// is open.
pub open spec fn same_but_hidden_text(
    a: Seq<DomEvent>,
    b: Seq<DomEvent>,
    start: int,
    marked: int,
) -> bool {
    &&& a.len() == b.len()
    &&& forall|i: int|
        0 <= i < a.len() && a[i] != b[i] ==> {
            &&& #[trigger] walked(a, start, marked, i).open.contains(true)
            &&& a[i] is Open
            &&& b[i] is Open
            &&& enters(a[i], marked) == enters(b[i], marked)
            &&& enters(a[i], start) == enters(b[i], start)
        }
}

/// Two walks that are the same up to hidden text stand in the same state
/// after every event.
pub proof fn lemma_hidden_text_walk(
    a: Seq<DomEvent>,
    b: Seq<DomEvent>,
    start: int,
    marked: int,
    n: int,
)
    requires
        same_but_hidden_text(a, b, start, marked),
        0 <= n <= a.len(),
    ensures
        walked(a, start, marked, n) == walked(b, start, marked, n),
    decreases n,
{
    if n > 0 {
        lemma_hidden_text_walk(a, b, start, marked, n - 1);
        if a[n - 1] != b[n - 1] {
            assert(walked(a, start, marked, n - 1).open.contains(true));
        }
    }
}

/// No text from below a hidden node reaches the text of a walk: whatever
/// such nodes hold, the text is the same.
pub proof fn lemma_hidden_text_ignored(a: Seq<DomEvent>, b: Seq<DomEvent>, start: int, marked: int)
    requires
        same_but_hidden_text(a, b, start, marked),
    ensures
        text_of(a, start, marked) == text_of(b, start, marked),
{
    lemma_hidden_text_walk(a, b, start, marked, a.len() as int);
}

} // verus!
