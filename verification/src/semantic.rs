//! Attribute semantics of glTF mesh primitives (`POSITION`, `TEXCOORD_0`, ...).
use vstd::prelude::*;
use crate::text::{
    chars_of, str_equal, starts_with, parse_u32, push_str, push_decimal_u64, decimal_digits,
    has_prefix, spec_parse_u32, lemma_u32_decimal_roundtrip,
};

verus! {

/// The semantic of a mesh attribute.
#[derive(Clone, Debug, PartialEq, Eq, Hash, PartialOrd, Ord)]
pub enum Semantic {
    Position,
    Normal,
    Tangent,
    TexCoord(u32),
    Color(u32),
    Joints(u32),
    Weights(u32),
    /// Any other name, kept verbatim.
    Custom(String),
}

/// A semantic as a mathematical value.
pub enum SemanticView {
    Position,
    Normal,
    Tangent,
    TexCoord(u32),
    Color(u32),
    Joints(u32),
    Weights(u32),
    Custom(Seq<char>),
}

impl View for Semantic {
    type V = SemanticView;

    open spec fn view(&self) -> SemanticView {
        match self {
            Semantic::Position => SemanticView::Position,
            Semantic::Normal => SemanticView::Normal,
            Semantic::Tangent => SemanticView::Tangent,
            Semantic::TexCoord(n) => SemanticView::TexCoord(*n),
            Semantic::Color(n) => SemanticView::Color(*n),
            Semantic::Joints(n) => SemanticView::Joints(*n),
            Semantic::Weights(n) => SemanticView::Weights(*n),
            Semantic::Custom(s) => SemanticView::Custom(s@),
        }
    }
}

/// Why a text is not a semantic.
#[derive(Clone, Debug, PartialEq, Eq)]
pub enum SemanticError {
    /// The text is empty.
    Empty,
    /// The text has an indexed prefix (`TEXCOORD_`, `COLOR_`, `JOINTS_`,
    /// `WEIGHTS_`) followed by something that is not a `u32`; it holds the
    /// whole text.
    InvalidIndex(String),
}

/// A semantic error as a mathematical value.
pub enum SemanticErrorView {
    Empty,
    InvalidIndex(Seq<char>),
}

impl View for SemanticError {
    type V = SemanticErrorView;

    open spec fn view(&self) -> SemanticErrorView {
        match self {
            SemanticError::Empty => SemanticErrorView::Empty,
            SemanticError::InvalidIndex(s) => SemanticErrorView::InvalidIndex(s@),
        }
    }
}

/// The name of a semantic in a glTF document.
pub open spec fn semantic_text(s: SemanticView) -> Seq<char> {
    match s {
        SemanticView::Position => "POSITION"@,
        SemanticView::Normal => "NORMAL"@,
        SemanticView::Tangent => "TANGENT"@,
        SemanticView::TexCoord(n) => "TEXCOORD_"@ + decimal_digits(n as nat),
        SemanticView::Color(n) => "COLOR_"@ + decimal_digits(n as nat),
        SemanticView::Joints(n) => "JOINTS_"@ + decimal_digits(n as nat),
        SemanticView::Weights(n) => "WEIGHTS_"@ + decimal_digits(n as nat),
        SemanticView::Custom(s) => s,
    }
}

/// An indexed semantic: the index after `prefix`, or the error.
pub open spec fn indexed(s: Seq<char>, plen: int, make: spec_fn(u32) -> SemanticView) -> Result<
    SemanticView,
    SemanticErrorView,
> {
    match spec_parse_u32(s.skip(plen)) {
        Some(n) => Ok(make(n)),
        None => Err(SemanticErrorView::InvalidIndex(s)),
    }
}

/// Reading a semantic from its name.
pub open spec fn spec_parse_semantic(s: Seq<char>) -> Result<SemanticView, SemanticErrorView> {
    if s.len() == 0 {
        Err(SemanticErrorView::Empty)
    } else if s == "POSITION"@ {
        Ok(SemanticView::Position)
    } else if s == "NORMAL"@ {
        Ok(SemanticView::Normal)
    } else if s == "TANGENT"@ {
        Ok(SemanticView::Tangent)
    } else if has_prefix(s, "TEXCOORD_"@) {
        indexed(s, 9, |n: u32| SemanticView::TexCoord(n))
    } else if has_prefix(s, "COLOR_"@) {
        indexed(s, 6, |n: u32| SemanticView::Color(n))
    } else if has_prefix(s, "JOINTS_"@) {
        indexed(s, 7, |n: u32| SemanticView::Joints(n))
    } else if has_prefix(s, "WEIGHTS_"@) {
        indexed(s, 8, |n: u32| SemanticView::Weights(n))
    } else {
        Ok(SemanticView::Custom(s))
    }
}

/// Whether a semantic is the one its name reads back as: a custom name
/// must not be empty, one of the three fixed names, or start with an
/// indexed prefix.
pub open spec fn is_canonical_semantic(s: SemanticView) -> bool {
    match s {
        SemanticView::Custom(c) => c.len() > 0 && c != "POSITION"@ && c != "NORMAL"@ && c
            != "TANGENT"@ && !has_prefix(c, "TEXCOORD_"@) && !has_prefix(c, "COLOR_"@)
            && !has_prefix(c, "JOINTS_"@) && !has_prefix(c, "WEIGHTS_"@),
        _ => true,
    }
}

fn parse_index(cs: &[char], plen: usize) -> (r: Option<u32>)
    requires
        plen <= cs@.len(),
    ensures
        r == spec_parse_u32(cs@.skip(plen as int)),
{
    let tail = vstd::slice::slice_subrange(cs, plen, cs.len());
    assert(tail@ =~= cs@.skip(plen as int));
    parse_u32(tail)
}

impl Semantic {
    /// The name of the semantic in a glTF document.
    pub fn to_text(&self) -> (r: String)
        ensures
            r@ == semantic_text(self@),
    {
        let mut out = String::new();
        match self {
            Semantic::Position => push_str(&mut out, "POSITION"),
            Semantic::Normal => push_str(&mut out, "NORMAL"),
            Semantic::Tangent => push_str(&mut out, "TANGENT"),
            Semantic::TexCoord(n) => {
                push_str(&mut out, "TEXCOORD_");
                push_decimal_u64(&mut out, *n as u64);
            },
            Semantic::Color(n) => {
                push_str(&mut out, "COLOR_");
                push_decimal_u64(&mut out, *n as u64);
            },
            Semantic::Joints(n) => {
                push_str(&mut out, "JOINTS_");
                push_decimal_u64(&mut out, *n as u64);
            },
            Semantic::Weights(n) => {
                push_str(&mut out, "WEIGHTS_");
                push_decimal_u64(&mut out, *n as u64);
            },
            Semantic::Custom(s) => push_str(&mut out, s.as_str()),
        }
        out
    }

    /// Reads a semantic from its name.
    pub fn from_str(s: &str) -> (r: Result<Semantic, SemanticError>)
        ensures
            match r {
                Ok(v) => spec_parse_semantic(s@) == Ok::<SemanticView, SemanticErrorView>(v@),
                Err(e) => spec_parse_semantic(s@) == Err::<SemanticView, SemanticErrorView>(e@),
            },
    {
        let cs = chars_of(s);
        if cs.len() == 0 {
            return Err(SemanticError::Empty);
        }
        if str_equal(s, "POSITION") {
            return Ok(Semantic::Position);
        }
        if str_equal(s, "NORMAL") {
            return Ok(Semantic::Normal);
        }
        if str_equal(s, "TANGENT") {
            return Ok(Semantic::Tangent);
        }
        proof {
            reveal_strlit("TEXCOORD_");
            reveal_strlit("COLOR_");
            reveal_strlit("JOINTS_");
            reveal_strlit("WEIGHTS_");
        }
        if starts_with(s, "TEXCOORD_") {
            return match parse_index(cs.as_slice(), 9) {
                Some(n) => Ok(Semantic::TexCoord(n)),
                None => Err(SemanticError::InvalidIndex(s.to_owned())),
            };
        }
        if starts_with(s, "COLOR_") {
            return match parse_index(cs.as_slice(), 6) {
                Some(n) => Ok(Semantic::Color(n)),
                None => Err(SemanticError::InvalidIndex(s.to_owned())),
            };
        }
        if starts_with(s, "JOINTS_") {
            return match parse_index(cs.as_slice(), 7) {
                Some(n) => Ok(Semantic::Joints(n)),
                None => Err(SemanticError::InvalidIndex(s.to_owned())),
            };
        }
        if starts_with(s, "WEIGHTS_") {
            return match parse_index(cs.as_slice(), 8) {
                Some(n) => Ok(Semantic::Weights(n)),
                None => Err(SemanticError::InvalidIndex(s.to_owned())),
            };
        }
        Ok(Semantic::Custom(s.to_owned()))
    }
}

proof fn lemma_indexed_roundtrip(p: Seq<char>, n: u32)
    ensures
        (p + decimal_digits(n as nat)).skip(p.len() as int) == decimal_digits(n as nat),
        has_prefix(p + decimal_digits(n as nat), p),
        spec_parse_u32((p + decimal_digits(n as nat)).skip(p.len() as int)) == Some(n),
{
    let t = p + decimal_digits(n as nat);
    assert(t.skip(p.len() as int) =~= decimal_digits(n as nat));
    assert(t.take(p.len() as int) =~= p);
    lemma_u32_decimal_roundtrip(n);
}

/// Every semantic reads back from its name as itself (a custom name only
/// when it could not be read as anything else).
pub proof fn lemma_semantic_roundtrip(s: SemanticView)
    requires
        is_canonical_semantic(s),
    ensures
        spec_parse_semantic(semantic_text(s)) == Ok::<SemanticView, SemanticErrorView>(s),
{
    reveal_strlit("POSITION");
    reveal_strlit("NORMAL");
    reveal_strlit("TANGENT");
    reveal_strlit("TEXCOORD_");
    reveal_strlit("COLOR_");
    reveal_strlit("JOINTS_");
    reveal_strlit("WEIGHTS_");
    let t = semantic_text(s);
    match s {
        SemanticView::TexCoord(n) => {
            lemma_indexed_roundtrip("TEXCOORD_"@, n);
            assert(t[0] == 'T' && t[1] == 'E');
        },
        SemanticView::Color(n) => {
            lemma_indexed_roundtrip("COLOR_"@, n);
            assert(t[0] == 'C');
            assert(!has_prefix(t, "TEXCOORD_"@)) by {
                if t.len() >= 9 {
                    assert(t.take(9)[0] != "TEXCOORD_"@[0]);
                }
            }
        },
        SemanticView::Joints(n) => {
            lemma_indexed_roundtrip("JOINTS_"@, n);
            assert(t[0] == 'J');
            assert(!has_prefix(t, "TEXCOORD_"@)) by {
                if t.len() >= 9 {
                    assert(t.take(9)[0] != "TEXCOORD_"@[0]);
                }
            }
            assert(!has_prefix(t, "COLOR_"@)) by {
                if t.len() >= 6 {
                    assert(t.take(6)[0] != "COLOR_"@[0]);
                }
            }
        },
        SemanticView::Weights(n) => {
            lemma_indexed_roundtrip("WEIGHTS_"@, n);
            assert(t[0] == 'W');
            assert(!has_prefix(t, "TEXCOORD_"@)) by {
                if t.len() >= 9 {
                    assert(t.take(9)[0] != "TEXCOORD_"@[0]);
                }
            }
            assert(!has_prefix(t, "COLOR_"@)) by {
                if t.len() >= 6 {
                    assert(t.take(6)[0] != "COLOR_"@[0]);
                }
            }
            assert(!has_prefix(t, "JOINTS_"@)) by {
                if t.len() >= 7 {
                    assert(t.take(7)[0] != "JOINTS_"@[0]);
                }
            }
        },
        SemanticView::Position => {
        },
        SemanticView::Normal => {
            assert(t[0] != "POSITION"@[0]);
        },
        SemanticView::Tangent => {
            assert(t[0] != "POSITION"@[0]);
            assert(t[0] != "NORMAL"@[0]);
        },
        SemanticView::Custom(c) => {
        },
    }
}

} // verus!
