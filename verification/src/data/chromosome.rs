//! Chromosomes: autosomes numbered by a small integer, and the two
//! allosomes X and Y. The total order used for all grouping and submission
//! ordering puts autosomes first, ordered by number, then X, then Y.

use vstd::prelude::*;
use crate::error::{Error, ErrorKind};
use crate::text::{all_digits, dec_str, dec_val, lemma_dec_str_val, parse_usize, str_eq, strip_prefix_str};

verus! {

/// A chromosome: an autosome with its number, or an allosome symbol.
#[derive(Clone, Copy, Debug, PartialEq, Eq, Structural)]
pub enum Chromosome {
    Auto(u8),
    Allo(char),
}

impl Chromosome {
    /// Allosome symbols are only ever X or Y.
    pub open spec fn wf(&self) -> bool {
        match *self {
            Chromosome::Auto(_) => true,
            Chromosome::Allo(sym) => sym == 'X' || sym == 'Y',
        }
    }
}

/// Total order on chromosomes: autosomes by number, then allosomes by symbol.
pub open spec fn chrom_le(a: Chromosome, b: Chromosome) -> bool {
    match (a, b) {
        (Chromosome::Auto(x), Chromosome::Auto(y)) => x <= y,
        (Chromosome::Auto(_), Chromosome::Allo(_)) => true,
        (Chromosome::Allo(_), Chromosome::Auto(_)) => false,
        (Chromosome::Allo(x), Chromosome::Allo(y)) => x as u32 <= y as u32,
    }
}

/// The chromosome order is total, antisymmetric and transitive.
pub proof fn lemma_chrom_le_order(a: Chromosome, b: Chromosome, c: Chromosome)
    ensures
        chrom_le(a, b) || chrom_le(b, a),
        chrom_le(a, b) && chrom_le(b, a) ==> a == b,
        chrom_le(a, b) && chrom_le(b, c) ==> chrom_le(a, c),
{
    if chrom_le(a, b) && chrom_le(b, a) {
        match (a, b) {
            (Chromosome::Allo(x), Chromosome::Allo(y)) => {
                assert(x as u32 == y as u32);
                assert(x == y);
            },
            _ => {},
        }
    }
}

/// Compares two chromosomes in the total order.
pub fn chrom_le_exec(a: &Chromosome, b: &Chromosome) -> (r: bool)
    ensures
        r == chrom_le(*a, *b),
{
    match (a, b) {
        (Chromosome::Auto(x), Chromosome::Auto(y)) => *x <= *y,
        (Chromosome::Auto(_), Chromosome::Allo(_)) => true,
        (Chromosome::Allo(_), Chromosome::Auto(_)) => false,
        (Chromosome::Allo(x), Chromosome::Allo(y)) => *x as u32 <= *y as u32,
    }
}

/// The canonical rendering of a chromosome: its number in decimal, or its
/// allosome symbol.
pub open spec fn chrom_str(c: Chromosome) -> Seq<char> {
    match c {
        Chromosome::Auto(n) => dec_str(n as nat),
        Chromosome::Allo(sym) => seq![sym],
    }
}

/// A chromosome token with an optional `"chr"` or `"c"` marker removed.
pub open spec fn chrom_token_body(s: Seq<char>) -> Seq<char> {
    if s.len() >= 3 && s[0] == 'c' && s[1] == 'h' && s[2] == 'r' {
        s.skip(3)
    } else if s.len() >= 1 && s[0] == 'c' {
        s.skip(1)
    } else {
        s
    }
}

/// What a chromosome token with its marker already removed denotes, if
/// anything: `X`, `Y`, or a number that fits the autosome range.
pub open spec fn chrom_of_body(t: Seq<char>) -> Option<Chromosome> {
    if t == seq!['X'] {
        Some(Chromosome::Allo('X'))
    } else if t == seq!['Y'] {
        Some(Chromosome::Allo('Y'))
    } else if t.len() > 0 && all_digits(t) && dec_val(t) <= 255 {
        Some(Chromosome::Auto(dec_val(t) as u8))
    } else {
        None
    }
}

/// What a chromosome token denotes, if anything.
pub open spec fn parse_chrom_spec(s: Seq<char>) -> Option<Chromosome> {
    chrom_of_body(chrom_token_body(s))
}

impl Chromosome {
    /// Parses a chromosome token: an optional `"chr"` or `"c"` marker,
    /// then `X`, `Y`, or a number.
    pub fn parse(s: &str) -> (r: Result<Chromosome, Error>)
        ensures
            match r {
                Ok(c) => parse_chrom_spec(s@) == Some(c) && c.wf(),
                Err(e) => parse_chrom_spec(s@) is None && e.kind_spec() == ErrorKind::ParseInt,
            },
    {
        proof {
            reveal_strlit("chr");
            reveal_strlit("c");
        }
        let stripped: &str = if let Some(rest) = strip_prefix_str(s, "chr") {
            proof {
                assert(s@.take(3)[0] == 'c' && s@.take(3)[1] == 'h' && s@.take(3)[2] == 'r');
                assert(chrom_token_body(s@) == s@.skip(3));
            }
            rest
        } else if let Some(rest) = strip_prefix_str(s, "c") {
            proof {
                assert(s@.take(1)[0] == 'c');
                assert(s@.len() >= 3 && s@[0] == 'c' && s@[1] == 'h' && s@[2] == 'r'
                    ==> s@.take(3) =~= "chr"@);
                assert(chrom_token_body(s@) == s@.skip(1));
            }
            rest
        } else {
            proof {
                assert(s@.len() >= 1 && s@[0] == 'c' ==> s@.take(1) =~= "c"@);
                assert(s@.len() >= 3 && s@[0] == 'c' && s@[1] == 'h' && s@[2] == 'r'
                    ==> s@.take(3) =~= "chr"@);
                assert(chrom_token_body(s@) == s@);
            }
            s
        };
        proof {
            reveal_strlit("X");
            reveal_strlit("Y");
        }
        if str_eq(stripped, "X") {
            proof {
                assert(stripped@ =~= seq!['X']);
            }
            Ok(Chromosome::Allo('X'))
        } else if str_eq(stripped, "Y") {
            proof {
                assert(stripped@ =~= seq!['Y']);
            }
            Ok(Chromosome::Allo('Y'))
        } else {
            proof {
                assert(stripped@ == seq!['X'] ==> stripped@ =~= "X"@);
                assert(stripped@ == seq!['Y'] ==> stripped@ =~= "Y"@);
            }
            match parse_usize(stripped) {
                Some(n) if n <= 255 => Ok(Chromosome::Auto(n as u8)),
                _ => {
                    let message = String::from_str("Cannot parse chromosome token");
                    Err(Error::new(ErrorKind::ParseInt, message, None))
                },
            }
        }
    }

    /// Renders the chromosome canonically.
    pub fn text(&self) -> (r: String)
        requires
            self.wf(),
        ensures
            r@ == chrom_str(*self),
    {
        match self {
            Chromosome::Auto(n) => crate::text::usize_to_string(*n as usize),
            Chromosome::Allo(sym) => {
                proof {
                    reveal_strlit("X");
                    reveal_strlit("Y");
                }
                if *sym == 'X' {
                    let r = String::from_str("X");
                    proof {
                        assert(r@ =~= seq!['X']);
                    }
                    r
                } else {
                    let r = String::from_str("Y");
                    proof {
                        assert(r@ =~= seq!['Y']);
                    }
                    r
                }
            },
        }
    }
}


/// What a chromosome renders to is a valid marker-free token for it.
proof fn lemma_chrom_of_body_round_trip(c: Chromosome)
    requires
        c.wf(),
    ensures
        chrom_of_body(chrom_str(c)) == Some(c),
{
    match c {
        Chromosome::Auto(n) => {
            lemma_dec_str_val(n as nat);
            let t = dec_str(n as nat);
            assert(t != seq!['X'] && t != seq!['Y']) by {
                if t == seq!['X'] {
                    assert(t[0] == 'X');
                    assert(crate::text::is_dec_digit(t[0]));
                }
                if t == seq!['Y'] {
                    assert(t[0] == 'Y');
                    assert(crate::text::is_dec_digit(t[0]));
                }
            }
        },
        Chromosome::Allo(sym) => {
            let t = seq![sym];
            if sym == 'X' {
                assert(t =~= seq!['X']);
            } else {
                assert(t != seq!['X']) by {
                    if t == seq!['X'] {
                        assert(t[0] == 'X');
                    }
                }
                assert(t =~= seq!['Y']);
            }
        },
    }
}

/// Parsing a chromosome token written with a `c` marker gives the
/// chromosome back.
pub proof fn lemma_chrom_c_token_round_trip(c: Chromosome)
    requires
        c.wf(),
    ensures
        parse_chrom_spec(seq!['c'] + chrom_str(c)) == Some(c),
{
    let body = chrom_str(c);
    let token = seq!['c'] + body;
    assert(token[0] == 'c');
    assert(token.len() >= 1);
    if token.len() >= 3 && token[1] == 'h' && token[2] == 'r' {
        assert(body[0] == 'h');
        match c {
            Chromosome::Auto(n) => {
                lemma_dec_str_val(n as nat);
                assert(crate::text::is_dec_digit(body[0]));
                assert(false);
            },
            Chromosome::Allo(sym) => {
                assert(false);
            },
        }
    }
    assert(chrom_token_body(token) =~= body);
    lemma_chrom_of_body_round_trip(c);
}

/// Parsing the canonical rendering of a chromosome gives it back.
pub proof fn lemma_chrom_round_trip(c: Chromosome)
    requires
        c.wf(),
    ensures
        parse_chrom_spec(chrom_str(c)) == Some(c),
{
    match c {
        Chromosome::Auto(n) => {
            lemma_dec_str_val(n as nat);
            let t = dec_str(n as nat);
            assert(crate::text::is_dec_digit(t[0]));
            assert(t[0] as u32 != 'c' as u32);
            assert(chrom_token_body(t) == t);
        },
        Chromosome::Allo(sym) => {
            let t = seq![sym];
            assert(t[0] != 'c');
            assert(chrom_token_body(t) == t);
        },
    }
    lemma_chrom_of_body_round_trip(c);
}

} // verus!
