//! Short namespace prefixes: `a`, `b`, ..., `z`, `aa`, `ab`, ...
use vstd::prelude::*;

verus! {

/// Every byte is a lower-case ASCII letter.
pub open spec fn is_lower(s: Seq<u8>) -> bool {
    forall|i: int| 0 <= i < s.len() ==> 97 <= #[trigger] s[i] <= 122
}

/// The prefix that follows `s`: trailing `z`s turn into `a`s and the letter
/// before them moves on by one; where there is no such letter an `a` is put
/// in front.
pub open spec fn successor(s: Seq<u8>) -> Seq<u8>
    decreases s.len(),
{
    if s.len() == 0 {
        seq![97u8]
    } else if s.last() == 122 {
        successor(s.drop_last()).push(97u8)
    } else {
        s.drop_last().push((s.last() + 1) as u8)
    }
}

/// The place of a prefix in the sequence: its letters read as digits 1 to 26.
pub open spec fn rank(s: Seq<u8>) -> nat
    decreases s.len(),
{
    if s.len() == 0 {
        0
    } else {
        (rank(s.drop_last()) * 26 + (s.last() - 96)) as nat
    }
}

/// The `n`th prefix that a fresh generator hands out, counted from 1; the
/// empty state stands at 0.
pub open spec fn nth_prefix(n: nat) -> Seq<u8>
    decreases n,
{
    if n == 0 {
        Seq::empty()
    } else {
        successor(nth_prefix((n - 1) as nat))
    }
}

/// ASCII bytes as text.
pub open spec fn ascii_text(s: Seq<u8>) -> Seq<char> {
    Seq::new(s.len(), |i: int| s[i] as char)
}

/// The successor of a lower-case prefix is a lower-case prefix, one place further on.
pub proof fn lemma_successor_rank(s: Seq<u8>)
    requires
        is_lower(s),
    ensures
        is_lower(successor(s)),
        rank(successor(s)) == rank(s) + 1,
    decreases s.len(),
{
    if s.len() == 0 {
        let next = seq![97u8];
        assert(next.drop_last() =~= Seq::<u8>::empty());
        assert(next.last() == 97);
        assert(rank(next.drop_last()) == 0);
        assert(rank(next) == 1);
    } else if s.last() == 122 {
        let front = s.drop_last();
        lemma_successor_rank(front);
        let next = successor(front).push(97u8);
        assert(next.drop_last() =~= successor(front));
        assert(next.last() == 97);
        assert(rank(next) == rank(successor(front)) * 26 + 1);
        assert(rank(s) == rank(front) * 26 + 26);
    } else {
        let next = s.drop_last().push((s.last() + 1) as u8);
        assert(97 <= s[s.len() - 1] <= 122);
        assert(next.drop_last() =~= s.drop_last());
        assert(next.last() == s.last() + 1);
        assert(rank(next) == rank(s.drop_last()) * 26 + (s.last() + 1 - 96));
        assert(rank(s) == rank(s.drop_last()) * 26 + (s.last() - 96));
    }
}

/// The `n`th prefix is lower-case and stands at place `n`.
pub proof fn lemma_nth_prefix_rank(n: nat)
    ensures
        is_lower(nth_prefix(n)),
        rank(nth_prefix(n)) == n,
    decreases n,
{
    if n > 0 {
        lemma_nth_prefix_rank((n - 1) as nat);
        lemma_successor_rank(nth_prefix((n - 1) as nat));
    }
}

/// Byte strings that read as the same text are the same.
pub proof fn lemma_ascii_text_injective(s: Seq<u8>, t: Seq<u8>)
    requires
        ascii_text(s) == ascii_text(t),
    ensures
        s == t,
{
    assert(s.len() == ascii_text(s).len());
    assert(t.len() == ascii_text(t).len());
    assert forall|i: int| 0 <= i < s.len() implies s[i] == t[i] by {
        assert(ascii_text(s)[i] == s[i] as char);
        assert(ascii_text(t)[i] == t[i] as char);
    }
    assert(s =~= t);
}

/// Prefix uniqueness: two different emissions of a fresh generator are
/// different strings.
pub proof fn lemma_prefixes_distinct(i: nat, j: nat)
    requires
        i != j,
    ensures
        ascii_text(nth_prefix(i)) != ascii_text(nth_prefix(j)),
{
    lemma_nth_prefix_rank(i);
    lemma_nth_prefix_rank(j);
    if ascii_text(nth_prefix(i)) == ascii_text(nth_prefix(j)) {
        lemma_ascii_text_injective(nth_prefix(i), nth_prefix(j));
    }
}

/// Wraps `String::from_utf8` on bytes below 128, which are valid UTF-8 with
/// one character per byte: the text holds each byte as the character of the
/// same code.
#[verifier::external_body]
fn ascii_string(bytes: Vec<u8>) -> (r: String)
    requires
        forall|i: int| 0 <= i < bytes.len() ==> bytes[i] < 128,
    ensures
        r@ == ascii_text(bytes@),
{
    String::from_utf8(bytes).unwrap()
}

/// Hands out prefixes that it has not handed out before.
pub struct PrefixGenerator {
    prev: Vec<u8>,
}

impl PrefixGenerator {
    /// The bytes of the prefix handed out last; empty before the first.
    pub closed spec fn state(&self) -> Seq<u8> {
        self.prev@
    }

    /// The state holds lower-case letters only.
    pub open spec fn wf(&self) -> bool {
        is_lower(self.state())
    }

    /// How many prefixes a fresh generator has handed out when it stands here.
    pub open spec fn emitted(&self) -> nat {
        rank(self.state())
    }

    /// A fresh generator.
    pub fn new() -> (r: PrefixGenerator)
        ensures
            r.wf(),
            r.state() == Seq::<u8>::empty(),
            r.emitted() == 0,
    {
        PrefixGenerator { prev: Vec::new() }
    }

    /// The next prefix.
    pub fn next(&mut self) -> (r: String)
        requires
            old(self).wf(),
        ensures
            final(self).wf(),
            final(self).state() == successor(old(self).state()),
            final(self).emitted() == old(self).emitted() + 1,
            r@ == ascii_text(final(self).state()),
    {
        let mut to_add: Vec<u8> = Vec::new();
        let mut bumped = false;
        while !bumped && self.prev.len() > 0
            invariant
                is_lower(self.prev@),
                forall|j: int| 0 <= j < to_add.len() ==> to_add[j] == 97,
                !bumped ==> successor(old(self).prev@) =~= successor(self.prev@) + to_add@,
                bumped ==> successor(old(self).prev@) =~= self.prev@ + to_add@,
                bumped ==> self.prev.len() > 0,
            decreases self.prev.len() + (if bumped { 0int } else { 1int }),
        {
            let ghost before = self.prev@;
            let last = self.prev.pop().unwrap();
            assert(self.prev@ =~= before.drop_last());
            assert(last == before.last());
            if last == 122 {
                let ghost added = to_add@;
                to_add.push(97);
                assert(successor(before) == successor(self.prev@).push(97u8));
                assert(successor(self.prev@).push(97u8) + added =~= successor(self.prev@)
                    + to_add@);
            } else {
                self.prev.push(last + 1);
                bumped = true;
                assert(self.prev@ =~= successor(before));
            }
        }
        if self.prev.is_empty() {
            self.prev.push(97);
        }
        self.prev.append(&mut to_add);
        assert(self.prev@ =~= successor(old(self).prev@));
        proof {
            lemma_successor_rank(old(self).prev@);
        }
        ascii_string(self.prev.clone())
    }
}

impl Default for PrefixGenerator {
    fn default() -> (r: PrefixGenerator)
        ensures
            r.wf(),
            r.state() == Seq::<u8>::empty(),
    {
        PrefixGenerator::new()
    }
}

/// Two generators that stand at different places hold different prefixes.
pub proof fn lemma_emissions_differ(a: PrefixGenerator, b: PrefixGenerator)
    requires
        a.wf(),
        b.wf(),
        a.emitted() != b.emitted(),
    ensures
        ascii_text(a.state()) != ascii_text(b.state()),
{
    if ascii_text(a.state()) == ascii_text(b.state()) {
        lemma_ascii_text_injective(a.state(), b.state());
    }
}

} // verus!
