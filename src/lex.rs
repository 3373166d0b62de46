use vstd::prelude::*;

verus! {

/// The closed set of token kinds produced by the lexer.
#[derive(Clone, Copy, Debug, PartialEq, Eq, Hash, Structural)]
pub enum TokenKind {
    Eof,
    Newline,
    Comment,
    Ident,
    Number,
    LParen,
    RParen,
    Comma,
    Colon,
    Equal,
    Semicolon,
    Plus,
    Hyphen,
    Asterisk,
    Slash,
    Def,
    Let,
}

/// Position of a token in a token stream.
#[derive(Clone, Copy, Debug, PartialEq, Eq, Hash, PartialOrd, Ord, Structural)]
pub struct TokenId {
    pub index: u32,
}

/// Largest number of tokens a stream may hold.
pub const MAX_TOKENS: usize = 0x7fff_ffff;

/// The bit that stands for a kind in a `KindSet`.
pub open spec fn kind_index(k: TokenKind) -> u32 {
    match k {
        TokenKind::Eof => 0,
        TokenKind::Newline => 1,
        TokenKind::Comment => 2,
        TokenKind::Ident => 3,
        TokenKind::Number => 4,
        TokenKind::LParen => 5,
        TokenKind::RParen => 6,
        TokenKind::Comma => 7,
        TokenKind::Colon => 8,
        TokenKind::Equal => 9,
        TokenKind::Semicolon => 10,
        TokenKind::Plus => 11,
        TokenKind::Hyphen => 12,
        TokenKind::Asterisk => 13,
        TokenKind::Slash => 14,
        TokenKind::Def => 15,
        TokenKind::Let => 16,
    }
}

pub open spec fn kind_of_index(i: u32) -> TokenKind {
    if i == 0 {
        TokenKind::Eof
    } else if i == 1 {
        TokenKind::Newline
    } else if i == 2 {
        TokenKind::Comment
    } else if i == 3 {
        TokenKind::Ident
    } else if i == 4 {
        TokenKind::Number
    } else if i == 5 {
        TokenKind::LParen
    } else if i == 6 {
        TokenKind::RParen
    } else if i == 7 {
        TokenKind::Comma
    } else if i == 8 {
        TokenKind::Colon
    } else if i == 9 {
        TokenKind::Equal
    } else if i == 10 {
        TokenKind::Semicolon
    } else if i == 11 {
        TokenKind::Plus
    } else if i == 12 {
        TokenKind::Hyphen
    } else if i == 13 {
        TokenKind::Asterisk
    } else if i == 14 {
        TokenKind::Slash
    } else if i == 15 {
        TokenKind::Def
    } else {
        TokenKind::Let
    }
}

proof fn lemma_kind_index(k: TokenKind)
    ensures
        kind_index(k) < 32,
        kind_of_index(kind_index(k)) == k,
{
}

proof fn lemma_single_bits(i: u32, j: u32)
    by (bit_vector)
    requires
        i < 32,
        j < 32,
    ensures
        ((1u32 << i) & (1u32 << j) != 0) == (i == j),
{
}

proof fn lemma_or_bits(a: u32, b: u32, m: u32)
    by (bit_vector)
    ensures
        ((a | b) & m != 0) == (a & m != 0 || b & m != 0),
{
}

proof fn lemma_zero_and(m: u32)
    by (bit_vector)
    ensures
        (0u32 & m) == 0,
{
}

/// A set of token kinds, held as one bit per kind.
#[derive(Clone, Copy, Debug, PartialEq, Eq, Hash, Structural)]
pub struct KindSet {
    bits: u32,
}

impl KindSet {
    pub closed spec fn has(self, k: TokenKind) -> bool {
        self.bits & (1u32 << kind_index(k)) != 0
    }

    pub open spec fn view(self) -> Set<TokenKind> {
        Set::new(|k: TokenKind| self.has(k))
    }

    pub closed spec fn spec_only(k: TokenKind) -> KindSet {
        KindSet { bits: 1u32 << kind_index(k) }
    }

    pub closed spec fn spec_union(self, other: KindSet) -> KindSet {
        KindSet { bits: self.bits | other.bits }
    }

    /// The one-element set holds exactly its element.
    pub proof fn lemma_only(k: TokenKind)
        ensures
            KindSet::spec_only(k)@ == set![k],
    {
        assert forall|x: TokenKind| KindSet::spec_only(k).has(x) <==> x == k by {
            lemma_kind_index(k);
            lemma_kind_index(x);
            lemma_single_bits(kind_index(k), kind_index(x));
        }
        assert(KindSet::spec_only(k)@ =~= set![k]);
    }

    /// A union holds what either side holds.
    pub proof fn lemma_union(a: KindSet, b: KindSet)
        ensures
            a.spec_union(b)@ == a@ + b@,
    {
        assert forall|x: TokenKind| a.spec_union(b).has(x) <==> a.has(x) || b.has(x) by {
            lemma_or_bits(a.bits, b.bits, 1u32 << kind_index(x));
        }
        assert(a.spec_union(b)@ =~= a@ + b@);
    }

    /// The set with no kinds.
    pub fn empty() -> (r: KindSet)
        ensures
            r@ == Set::<TokenKind>::empty(),
    {
        assert forall|x: TokenKind| !(KindSet { bits: 0 }).has(x) by {
            lemma_zero_and(1u32 << kind_index(x));
        }
        let r = KindSet { bits: 0 };
        assert(r@ =~= Set::<TokenKind>::empty());
        r
    }

    pub fn only(k: TokenKind) -> (r: KindSet)
        ensures
            r == KindSet::spec_only(k),
            r@ == set![k],
    {
        proof {
            lemma_kind_index(k);
            KindSet::lemma_only(k);
        }
        let i: u32 = match k {
            TokenKind::Eof => 0,
            TokenKind::Newline => 1,
            TokenKind::Comment => 2,
            TokenKind::Ident => 3,
            TokenKind::Number => 4,
            TokenKind::LParen => 5,
            TokenKind::RParen => 6,
            TokenKind::Comma => 7,
            TokenKind::Colon => 8,
            TokenKind::Equal => 9,
            TokenKind::Semicolon => 10,
            TokenKind::Plus => 11,
            TokenKind::Hyphen => 12,
            TokenKind::Asterisk => 13,
            TokenKind::Slash => 14,
            TokenKind::Def => 15,
            TokenKind::Let => 16,
        };
        KindSet { bits: 1u32 << i }
    }

    pub fn union(self, other: KindSet) -> (r: KindSet)
        ensures
            r == self.spec_union(other),
            r@ == self@ + other@,
    {
        proof {
            KindSet::lemma_union(self, other);
        }
        KindSet { bits: self.bits | other.bits }
    }

    pub fn contains(&self, k: TokenKind) -> (r: bool)
        ensures
            r == self@.contains(k),
    {
        let one = KindSet::only(k);
        self.bits & one.bits != 0
    }
}

/// A finished token stream, ending with `Eof`.
pub struct Tokens {
    kinds: Vec<TokenKind>,
}

impl Tokens {
    pub closed spec fn view(&self) -> Seq<TokenKind> {
        self.kinds@
    }

    /// The stream is non-empty, ends with `Eof`, and is short enough for
    /// every position and every handle to fit in 32 bits.
    pub open spec fn wf(&self) -> bool {
        &&& 0 < self@.len() <= MAX_TOKENS
        &&& self@.last() == TokenKind::Eof
    }

    /// Wraps the kinds, or gives `None` when they are empty, too many, or do
    /// not end with `Eof`.
    pub fn new(kinds: Vec<TokenKind>) -> (r: Option<Tokens>)
        ensures
            r is Some <==> (0 < kinds@.len() <= MAX_TOKENS && kinds@.last() == TokenKind::Eof),
            r matches Some(t) ==> t@ == kinds@ && t.wf(),
    {
        let n = kinds.len();
        if n == 0 || n > MAX_TOKENS || kinds[n - 1] != TokenKind::Eof {
            None
        } else {
            Some(Tokens { kinds })
        }
    }

    pub fn len(&self) -> (r: usize)
        ensures
            r == self@.len(),
    {
        self.kinds.len()
    }

    pub fn kind(&self, id: TokenId) -> (r: TokenKind)
        requires
            (id.index as int) < self@.len(),
        ensures
            r == self@[id.index as int],
    {
        self.kinds[id.index as usize]
    }
}

} // verus!
