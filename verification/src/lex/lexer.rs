//! The character cursor underneath the scanner.
use vstd::prelude::*;
use vstd::std_specs::iter::IteratorSpec;
use vstd::utf8::{encode_scalar, encode_utf8};

verus! {

/// Number of bytes that `c` takes in UTF-8.
pub open spec fn char_width(c: char) -> nat {
    encode_scalar(c as u32).len()
}

/// Number of bytes that the text `s` takes in UTF-8.
pub open spec fn byte_len(s: Seq<char>) -> nat {
    encode_utf8(s).len()
}

/// The character at index `i` of `src`, or NUL where there is none.
pub open spec fn char_at(src: Seq<char>, i: nat) -> char {
    if i < src.len() {
        src[i as int]
    } else {
        '\0'
    }
}

/// A character takes between one and four bytes, by the size of its scalar value.
pub proof fn lemma_char_width(c: char)
    ensures
        1 <= char_width(c) <= 4,
        char_width(c) == if (c as u32) < 0x80 {
            1nat
        } else if (c as u32) < 0x800 {
            2nat
        } else if (c as u32) < 0x10000 {
            3nat
        } else {
            4nat
        },
{
    vstd::utf8::char_is_scalar(c);
}

/// The byte length of a concatenation is the sum of the byte lengths.
pub proof fn lemma_byte_len_concat(a: Seq<char>, b: Seq<char>)
    ensures
        byte_len(a + b) == byte_len(a) + byte_len(b),
    decreases a.len(),
{
    if a.len() == 0 {
        assert(a + b =~= b);
    } else {
        assert((a + b).drop_first() =~= a.drop_first() + b);
        lemma_byte_len_concat(a.drop_first(), b);
    }
}

/// Extending a range of `src` by one character adds that character's width.
pub proof fn lemma_byte_len_step(src: Seq<char>, from: int, to: int)
    requires
        0 <= from <= to < src.len(),
    ensures
        byte_len(src.subrange(from, to + 1)) == byte_len(src.subrange(from, to)) + char_width(
            src[to],
        ),
{
    let one = seq![src[to]];
    assert(one.drop_first() =~= Seq::<char>::empty());
    assert(byte_len(Seq::<char>::empty()) == 0);
    assert(byte_len(one) == char_width(src[to]));
    assert(src.subrange(from, to + 1) =~= src.subrange(from, to) + one);
    lemma_byte_len_concat(src.subrange(from, to), one);
}

/// Two adjacent ranges of `src` have the byte length of the range that covers both.
pub proof fn lemma_byte_len_split(src: Seq<char>, from: int, mid: int, to: int)
    requires
        0 <= from <= mid <= to <= src.len(),
    ensures
        byte_len(src.subrange(from, to)) == byte_len(src.subrange(from, mid)) + byte_len(
            src.subrange(mid, to),
        ),
{
    assert(src.subrange(from, to) =~= src.subrange(from, mid) + src.subrange(mid, to));
    lemma_byte_len_concat(src.subrange(from, mid), src.subrange(mid, to));
}

/// No range of `src` is longer in bytes than `src` itself.
pub proof fn lemma_byte_len_range(src: Seq<char>, from: int, to: int)
    requires
        0 <= from <= to <= src.len(),
    ensures
        byte_len(src.subrange(from, to)) <= byte_len(src),
{
    lemma_byte_len_split(src, 0, from, src.len() as int);
    lemma_byte_len_split(src, from, to, src.len() as int);
    assert(src.subrange(0, src.len() as int) =~= src);
}

/// Number of bytes that `c` takes in UTF-8.
pub fn utf8_width(c: char) -> (n: usize)
    ensures
        n == char_width(c),
{
    proof {
        lemma_char_width(c);
    }
    let v: u32 = c as u32;
    if v < 0x80 {
        1
    } else if v < 0x800 {
        2
    } else if v < 0x10000 {
        3
    } else {
        4
    }
}

/// The characters of `s`, in order.
pub fn to_chars(s: &str) -> (v: Vec<char>)
    ensures
        v@ == s@,
{
    broadcast use vstd::string::group_string_axioms;

    let mut it = s.chars();
    let mut v: Vec<char> = Vec::new();
    assert(v@ + it.remaining() =~= s@);
    loop
        invariant
            v@ + it.remaining() == s@,
            it.obeys_prophetic_iter_laws(),
            it.decrease() is Some,
        ensures
            v@ == s@,
        decreases it.decrease()->0,
    {
        match it.next() {
            Some(c) => {
                v.push(c);
                assert(v@ + it.remaining() =~= s@);
            },
            None => {
                assert(v@ =~= s@);
                break ;
            },
        }
    }
    v
}

/// A cursor over the characters of one source text. It remembers where the
/// token under construction began and how many bytes it spans so far.
pub struct Lexer {
    chars: Vec<char>,
    pos: usize,
    start: usize,
    length: usize,
}

impl Lexer {
    /// The whole source text.
    pub closed spec fn source(&self) -> Seq<char> {
        self.chars@
    }

    /// Number of characters consumed so far.
    pub closed spec fn offset(&self) -> nat {
        self.pos as nat
    }

    /// Index of the first character of the token under construction.
    pub closed spec fn token_start(&self) -> nat {
        self.start as nat
    }

    /// The cursor lies inside the text, the token start lies at or before it,
    /// and the byte count kept for the token is that of the characters in between.
    pub closed spec fn wf(&self) -> bool {
        &&& self.start <= self.pos <= self.chars.len()
        &&& self.length == byte_len(self.chars@.subrange(self.start as int, self.pos as int))
        &&& byte_len(self.chars@) <= usize::MAX
    }

    /// What well-formedness says of the positions.
    pub proof fn lemma_bounds(&self)
        requires
            self.wf(),
        ensures
            self.token_start() <= self.offset() <= self.source().len(),
            self.source().len() <= usize::MAX,
            byte_len(self.source()) <= usize::MAX,
    {
    }

    pub fn new(input: &str) -> (lexer: Lexer)
        ensures
            lexer.wf(),
            lexer.source() == input@,
            lexer.offset() == 0,
            lexer.token_start() == 0,
    {
        broadcast use vstd::slice::axiom_spec_len;

        // The length of the text in bytes fits in the address space.
        let _ = input.as_bytes().len();
        let chars = to_chars(input);
        assert(chars@.subrange(0, 0) =~= Seq::<char>::empty());
        Lexer { chars, pos: 0, start: 0, length: 0 }
    }

    /// The next character, or NUL at the end of the text.
    pub fn peek_first(&self) -> (c: char)
        requires
            self.wf(),
        ensures
            c == char_at(self.source(), self.offset()),
    {
        if self.pos < self.chars.len() {
            self.chars[self.pos]
        } else {
            '\0'
        }
    }

    /// The character after the next one, or NUL where there is none.
    pub fn peek_second(&self) -> (c: char)
        requires
            self.wf(),
        ensures
            c == char_at(self.source(), self.offset() + 1),
    {
        if self.pos < self.chars.len() && self.pos + 1 < self.chars.len() {
            self.chars[self.pos + 1]
        } else {
            '\0'
        }
    }

    pub fn is_eof(&self) -> (b: bool)
        requires
            self.wf(),
        ensures
            b == (self.offset() == self.source().len()),
    {
        self.pos == self.chars.len()
    }

    /// Number of characters consumed so far.
    pub fn position(&self) -> (n: usize)
        requires
            self.wf(),
        ensures
            n == self.offset(),
    {
        self.pos
    }

    /// The character at index `i` of the source.
    pub fn nth(&self, i: usize) -> (c: char)
        requires
            self.wf(),
            i < self.source().len(),
        ensures
            c == self.source()[i as int],
    {
        self.chars[i]
    }

    /// The characters of the source.
    pub fn chars(&self) -> (chars: &Vec<char>)
        ensures
            chars@ == self.source(),
    {
        &self.chars
    }

    /// Gives up the cursor and keeps the characters of the source.
    pub fn into_chars(self) -> (chars: Vec<char>)
        ensures
            chars@ == self.source(),
    {
        self.chars
    }

    /// Bytes spanned by the token under construction.
    pub fn tok_length(&self) -> (n: usize)
        requires
            self.wf(),
        ensures
            n == byte_len(self.source().subrange(self.token_start() as int, self.offset() as int)),
    {
        self.length
    }

    /// Starts a new token at the cursor.
    pub fn set_length(&mut self)
        requires
            old(self).wf(),
        ensures
            final(self).wf(),
            final(self).source() == old(self).source(),
            final(self).offset() == old(self).offset(),
            final(self).token_start() == old(self).offset(),
    {
        self.start = self.pos;
        self.length = 0;
        assert(self.chars@.subrange(self.pos as int, self.pos as int) =~= Seq::<char>::empty());
    }

    /// Consumes one character, if there is one.
    pub fn take(&mut self) -> (c: Option<char>)
        requires
            old(self).wf(),
        ensures
            final(self).wf(),
            final(self).source() == old(self).source(),
            final(self).token_start() == old(self).token_start(),
            old(self).offset() < old(self).source().len() ==> c == Some(
                old(self).source()[old(self).offset() as int],
            ) && final(self).offset() == old(self).offset() + 1,
            old(self).offset() >= old(self).source().len() ==> c is None && final(self).offset()
                == old(self).offset(),
    {
        if self.pos < self.chars.len() {
            let c = self.chars[self.pos];
            let w = utf8_width(c);
            proof {
                lemma_byte_len_step(self.chars@, self.start as int, self.pos as int);
                lemma_byte_len_range(self.chars@, self.start as int, self.pos + 1);
            }
            self.length = self.length + w;
            self.pos = self.pos + 1;
            Some(c)
        } else {
            None
        }
    }

    /// Consumes characters for as long as `predicate` accepts the next one.
    pub fn take_while<F: Fn(char) -> bool>(&mut self, predicate: F)
        requires
            old(self).wf(),
            forall|c: char| call_requires(predicate, (c,)),
        ensures
            final(self).wf(),
            final(self).source() == old(self).source(),
            final(self).token_start() == old(self).token_start(),
            old(self).offset() <= final(self).offset() <= old(self).source().len(),
            forall|i: int|
                old(self).offset() <= i < final(self).offset() ==> call_ensures(
                    predicate,
                    (#[trigger] old(self).source()[i],),
                    true,
                ),
            final(self).offset() < old(self).source().len() ==> call_ensures(
                predicate,
                (old(self).source()[final(self).offset() as int],),
                false,
            ),
    {
        while self.pos < self.chars.len()
            invariant
                self.wf(),
                self.chars@ == old(self).chars@,
                self.start == old(self).start,
                old(self).pos <= self.pos <= self.chars.len(),
                forall|c: char| call_requires(predicate, (c,)),
                forall|i: int|
                    old(self).pos <= i < self.pos ==> call_ensures(
                        predicate,
                        (#[trigger] self.chars@[i],),
                        true,
                    ),
            ensures
                self.wf(),
                self.chars@ == old(self).chars@,
                self.start == old(self).start,
                old(self).pos <= self.pos <= self.chars.len(),
                forall|i: int|
                    old(self).pos <= i < self.pos ==> call_ensures(
                        predicate,
                        (#[trigger] self.chars@[i],),
                        true,
                    ),
                self.pos < self.chars.len() ==> call_ensures(
                    predicate,
                    (self.chars@[self.pos as int],),
                    false,
                ),
            decreases self.chars.len() - self.pos,
        {
            let c = self.chars[self.pos];
            if !predicate(c) {
                break ;
            }
            self.take();
        }
    }
}

} // verus!
