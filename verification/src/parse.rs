//! The field-list parser: from tokens to field bindings.
//!
//! Each surface form is an LL(1) grammar over [`crate::token::Token`]. For
//! every production there is a spec-level description — `..._end` gives the
//! position after one instance (or `None` where none starts there), and
//! `..._at` relates the tokens to the parsed value — and an executable
//! parser proved sound and complete against it. Parsing keeps source order;
//! duplicate names are rejected later, when a transformation canonicalizes.

use vstd::prelude::*;

use crate::errors::EngineError;
use crate::fields::BasicBind;
use crate::fields::DestructField;
use crate::fields::DestructFields;
use crate::fields::Keyed;
use crate::fields::Param;
use crate::fields::Target;
use crate::order::name_clone;
use crate::token::Token;

verus! {

/// Where a binding `name: expr` starting at `i` ends.
pub open spec fn bind_end(t: Seq<Token>, i: int) -> Option<int> {
    if 0 <= i && i + 3 <= t.len() && t[i] is Ident && t[i + 1] is Colon && t[i + 2] is Expr {
        Some(i + 3)
    } else {
        None
    }
}

/// The binding `name: expr` the tokens from `i` spell.
pub open spec fn bind_at(t: Seq<Token>, i: int, b: BasicBind) -> bool {
    &&& bind_end(t, i) is Some
    &&& t[i] matches Token::Ident(n) && b.name@ == n@
    &&& t[i + 2] matches Token::Expr(e) && b.expr == e
}

/// Whether a binding list continues at `i`.
pub open spec fn bind_start(t: Seq<Token>, i: int) -> bool {
    0 <= i < t.len() && t[i] is Ident
}

/// Where a comma-separated binding list starting at `i` ends; a trailing
/// comma is allowed.
pub open spec fn bind_list_end(t: Seq<Token>, i: int) -> Option<int>
    decreases t.len() - i when 0 <= i <= t.len()
{
    if !bind_start(t, i) {
        Some(i)
    } else {
        match bind_end(t, i) {
            None => None,
            Some(j1) => if j1 < t.len() && t[j1] is Comma {
                bind_list_end(t, j1 + 1)
            } else {
                Some(j1)
            },
        }
    }
}

/// The bindings the token list from `i` spells, in source order.
pub open spec fn bind_list_at(t: Seq<Token>, i: int, fs: Seq<BasicBind>) -> bool
    decreases t.len() - i when 0 <= i <= t.len()
{
    if !bind_start(t, i) {
        fs.len() == 0
    } else {
        match bind_end(t, i) {
            None => false,
            Some(j1) => {
                &&& fs.len() > 0
                &&& bind_at(t, i, fs[0])
                &&& if j1 < t.len() && t[j1] is Comma {
                    bind_list_at(t, j1 + 1, fs.drop_first())
                } else {
                    fs.len() == 1
                }
            },
        }
    }
}

impl BasicBind {
    /// Parses one binding `name: expr`.
    pub fn parse(tokens: &Vec<Token>, i: usize) -> (r: Result<(BasicBind, usize), EngineError>)
        ensures
            r is Ok <==> bind_end(tokens@, i as int) is Some,
            r matches Ok((b, j)) ==> bind_end(tokens@, i as int) == Some(j as int) && bind_at(
                tokens@,
                i as int,
                b,
            ),
            r matches Err(e) ==> e is Syntax,
    {
        if i < tokens.len() && tokens.len() - i >= 3 {
            let name = match &tokens[i] {
                Token::Ident(n) => name_clone(n),
                _ => {
                    return Err(EngineError::Syntax { position: i });
                },
            };
            match &tokens[i + 1] {
                Token::Colon => {},
                _ => {
                    return Err(EngineError::Syntax { position: i + 1 });
                },
            }
            let expr = match &tokens[i + 2] {
                Token::Expr(e) => *e,
                _ => {
                    return Err(EngineError::Syntax { position: i + 2 });
                },
            };
            Ok((BasicBind { name, expr }, i + 3))
        } else {
            Err(EngineError::Syntax { position: i })
        }
    }
}

/// Parses a comma-separated binding list, stopping before the first token
/// that cannot begin a binding.
pub fn parse_bind_list(tokens: &Vec<Token>, i: usize) -> (r: Result<
    (Vec<BasicBind>, usize),
    EngineError,
>)
    requires
        i <= tokens@.len(),
    ensures
        r is Ok <==> bind_list_end(tokens@, i as int) is Some,
        r matches Ok((fs, j)) ==> bind_list_end(tokens@, i as int) == Some(j as int)
            && bind_list_at(tokens@, i as int, fs@) && i <= j <= tokens@.len(),
        r matches Err(e) ==> e is Syntax,
    decreases tokens@.len() - i,
{
    let starts = i < tokens.len() && (match &tokens[i] {
        Token::Ident(_) => true,
        _ => false,
    });
    if !starts {
        let fs: Vec<BasicBind> = Vec::new();
        proof {
            assert(fs@ =~= Seq::<BasicBind>::empty());
        }
        return Ok((fs, i));
    }
    let (b, j1) = match BasicBind::parse(tokens, i) {
        Ok(x) => x,
        Err(e) => {
            return Err(e);
        },
    };
    let more = j1 < tokens.len() && (match &tokens[j1] {
        Token::Comma => true,
        _ => false,
    });
    if more {
        match parse_bind_list(tokens, j1 + 1) {
            Ok((rest, j)) => {
                let mut fs: Vec<BasicBind> = Vec::new();
                fs.push(b);
                let mut rest = rest;
                let ghost rest0 = rest@;
                fs.append(&mut rest);
                proof {
                    assert(fs@[0] == b);
                    assert(fs@.drop_first() =~= rest0);
                }
                Ok((fs, j))
            },
            Err(e) => Err(e),
        }
    } else {
        let mut fs: Vec<BasicBind> = Vec::new();
        fs.push(b);
        Ok((fs, j1))
    }
}

/// Where a destructure field `[ref] [mut] name [: target]` starting at `i`
/// ends.
pub open spec fn dfield_end(t: Seq<Token>, i: int) -> Option<int> {
    if i < 0 {
        None
    } else {
        let i1 = if i < t.len() && t[i] is KwRef {
            i + 1
        } else {
            i
        };
        let i2 = if i1 < t.len() && t[i1] is KwMut {
            i1 + 1
        } else {
            i1
        };
        if i2 < t.len() && t[i2] is Ident {
            if i2 + 1 < t.len() && t[i2 + 1] is Colon {
                if i2 + 2 < t.len() && (t[i2 + 2] is Ident || t[i2 + 2] is Underscore || t[i2
                    + 2] is Pat) {
                    Some(i2 + 3)
                } else {
                    None
                }
            } else {
                Some(i2 + 1)
            }
        } else {
            None
        }
    }
}

/// The destructure field the tokens from `i` spell.
pub open spec fn dfield_at(t: Seq<Token>, i: int, f: DestructField) -> bool {
    let i1 = if i < t.len() && t[i] is KwRef {
        i + 1
    } else {
        i
    };
    let i2 = if i1 < t.len() && t[i1] is KwMut {
        i1 + 1
    } else {
        i1
    };
    &&& dfield_end(t, i) is Some
    &&& f.by_ref == (i1 != i)
    &&& f.by_mut == (i2 != i1)
    &&& t[i2] matches Token::Ident(n) && f.name@ == n@
    &&& if i2 + 1 < t.len() && t[i2 + 1] is Colon {
        match t[i2 + 2] {
            Token::Ident(a) => f.target matches Target::Alias(x) && x@ == a@,
            Token::Underscore => f.target is Wildcard,
            Token::Pat(p) => f.target matches Target::Nested(q) && q == p,
            _ => false,
        }
    } else {
        f.target is Plain
    }
}

/// Whether a destructure-field list continues at `i`.
pub open spec fn dfield_start(t: Seq<Token>, i: int) -> bool {
    0 <= i < t.len() && (t[i] is KwRef || t[i] is KwMut || t[i] is Ident)
}

/// Where a destructure-field list starting at `i` ends.
pub open spec fn dfield_list_end(t: Seq<Token>, i: int) -> Option<int>
    decreases t.len() - i when 0 <= i <= t.len()
{
    if !dfield_start(t, i) {
        Some(i)
    } else {
        match dfield_end(t, i) {
            None => None,
            Some(j1) => if j1 <= t.len() {
                if j1 < t.len() && t[j1] is Comma {
                    dfield_list_end(t, j1 + 1)
                } else {
                    Some(j1)
                }
            } else {
                None
            },
        }
    }
}

/// The destructure fields the token list from `i` spells, in source order.
pub open spec fn dfield_list_at(t: Seq<Token>, i: int, fs: Seq<DestructField>) -> bool
    decreases t.len() - i when 0 <= i <= t.len()
{
    if !dfield_start(t, i) {
        fs.len() == 0
    } else {
        match dfield_end(t, i) {
            None => false,
            Some(j1) => {
                &&& fs.len() > 0
                &&& dfield_at(t, i, fs[0])
                &&& j1 <= t.len()
                &&& if j1 < t.len() && t[j1] is Comma {
                    dfield_list_at(t, j1 + 1, fs.drop_first())
                } else {
                    fs.len() == 1
                }
            },
        }
    }
}

impl DestructField {
    /// Parses one destructure field `[ref] [mut] name [: target]`, where the
    /// target is an alias name, the wildcard, or a nested pattern.
    pub fn parse(tokens: &Vec<Token>, i: usize) -> (r: Result<
        (DestructField, usize),
        EngineError,
    >)
        requires
            i <= tokens@.len(),
        ensures
            r is Ok <==> dfield_end(tokens@, i as int) is Some,
            r matches Ok((f, j)) ==> dfield_end(tokens@, i as int) == Some(j as int) && dfield_at(
                tokens@,
                i as int,
                f,
            ) && i < j <= tokens@.len(),
            r matches Err(e) ==> e is Syntax,
    {
        let mut k: usize = i;
        let by_ref = k < tokens.len() && (match &tokens[k] {
            Token::KwRef => true,
            _ => false,
        });
        if by_ref {
            k = k + 1;
        }
        let by_mut = k < tokens.len() && (match &tokens[k] {
            Token::KwMut => true,
            _ => false,
        });
        if by_mut {
            k = k + 1;
        }
        if k >= tokens.len() {
            return Err(EngineError::Syntax { position: k });
        }
        let name = match &tokens[k] {
            Token::Ident(n) => name_clone(n),
            _ => {
                return Err(EngineError::Syntax { position: k });
            },
        };
        let has_colon = k + 1 < tokens.len() && (match &tokens[k + 1] {
            Token::Colon => true,
            _ => false,
        });
        if has_colon {
            if k + 2 >= tokens.len() {
                return Err(EngineError::Syntax { position: k + 2 });
            }
            let target = match &tokens[k + 2] {
                Token::Ident(a) => Target::Alias(name_clone(a)),
                Token::Underscore => Target::Wildcard,
                Token::Pat(p) => Target::Nested(*p),
                _ => {
                    return Err(EngineError::Syntax { position: k + 2 });
                },
            };
            Ok((DestructField { by_ref, by_mut, name, target }, k + 3))
        } else {
            Ok((DestructField { by_ref, by_mut, name, target: Target::Plain }, k + 1))
        }
    }
}

impl DestructFields {
    /// Parses a comma-separated destructure-field list, stopping before the
    /// first token that cannot begin a field.
    pub fn parse(tokens: &Vec<Token>, i: usize) -> (r: Result<
        (DestructFields, usize),
        EngineError,
    >)
        requires
            i <= tokens@.len(),
        ensures
            r is Ok <==> dfield_list_end(tokens@, i as int) is Some,
            r matches Ok((fs, j)) ==> dfield_list_end(tokens@, i as int) == Some(j as int)
                && dfield_list_at(tokens@, i as int, fs.fields@) && i <= j <= tokens@.len(),
            r matches Err(e) ==> e is Syntax,
        decreases tokens@.len() - i,
    {
        let starts = i < tokens.len() && (match &tokens[i] {
            Token::KwRef => true,
            Token::KwMut => true,
            Token::Ident(_) => true,
            _ => false,
        });
        if !starts {
            let fs: Vec<DestructField> = Vec::new();
            proof {
                assert(fs@ =~= Seq::<DestructField>::empty());
            }
            return Ok((DestructFields { fields: fs }, i));
        }
        let (f, j1) = match DestructField::parse(tokens, i) {
            Ok(x) => x,
            Err(e) => {
                return Err(e);
            },
        };
        let more = j1 < tokens.len() && (match &tokens[j1] {
            Token::Comma => true,
            _ => false,
        });
        if more {
            match DestructFields::parse(tokens, j1 + 1) {
                Ok((rest, j)) => {
                    let mut fields: Vec<DestructField> = Vec::new();
                    fields.push(f);
                    let mut rest_fields = rest.fields;
                    let ghost rest0 = rest_fields@;
                    fields.append(&mut rest_fields);
                    proof {
                        assert(fields@[0] == f);
                        assert(fields@.drop_first() =~= rest0);
                    }
                    Ok((DestructFields { fields }, j))
                },
                Err(e) => Err(e),
            }
        } else {
            let mut fields: Vec<DestructField> = Vec::new();
            fields.push(f);
            Ok((DestructFields { fields }, j1))
        }
    }
}

/// The grammar determines a binding list's names: any two parses of the
/// same tokens agree name for name.
pub proof fn lemma_bind_list_keys(t: Seq<Token>, i: int, fs1: Seq<BasicBind>, fs2: Seq<BasicBind>)
    requires
        0 <= i <= t.len(),
        bind_list_at(t, i, fs1),
        bind_list_at(t, i, fs2),
    ensures
        crate::canon::key_seq(fs1) == crate::canon::key_seq(fs2),
    decreases t.len() - i,
{
    if !bind_start(t, i) {
        assert(crate::canon::key_seq(fs1) =~= crate::canon::key_seq(fs2));
    } else {
        let j1 = bind_end(t, i)->Some_0;
        assert(fs1[0].name@ == fs2[0].name@);
        if j1 < t.len() && t[j1] is Comma {
            lemma_bind_list_keys(t, j1 + 1, fs1.drop_first(), fs2.drop_first());
            assert(crate::canon::key_seq(fs1.drop_first()).len() == crate::canon::key_seq(
                fs2.drop_first(),
            ).len());
            assert(fs1.len() == fs2.len());
            assert forall|k: int| 0 <= k < fs1.len() implies crate::canon::key_seq(fs1)[k]
                == crate::canon::key_seq(fs2)[k] by {
                if k > 0 {
                    assert(fs1.drop_first()[k - 1] == fs1[k]);
                    assert(fs2.drop_first()[k - 1] == fs2[k]);
                    assert(crate::canon::key_seq(fs1.drop_first())[k - 1] == fs1.drop_first()[k
                        - 1].key());
                    assert(crate::canon::key_seq(fs2.drop_first())[k - 1] == fs2.drop_first()[k
                        - 1].key());
                    assert(crate::canon::key_seq(fs1)[k] == fs1[k].key());
                    assert(crate::canon::key_seq(fs2)[k] == fs2[k].key());
                }
            }
            assert(crate::canon::key_seq(fs1) =~= crate::canon::key_seq(fs2));
        } else {
            assert(crate::canon::key_seq(fs1) =~= crate::canon::key_seq(fs2));
        }
    }
}

/// Where a declared parameter `name: type` starting at `i` ends.
pub open spec fn param_end(t: Seq<Token>, i: int) -> Option<int> {
    if 0 <= i && i + 3 <= t.len() && t[i] is Ident && t[i + 1] is Colon && t[i + 2] is Ty {
        Some(i + 3)
    } else {
        None
    }
}

/// The declared parameter the tokens from `i` spell.
pub open spec fn param_at(t: Seq<Token>, i: int, p: Param) -> bool {
    &&& param_end(t, i) is Some
    &&& t[i] matches Token::Ident(n) && p.name@ == n@
    &&& t[i + 2] matches Token::Ty(y) && p.ty == y
}

/// Where a named-parameter list starting at `i` ends.
pub open spec fn param_list_end(t: Seq<Token>, i: int) -> Option<int>
    decreases t.len() - i when 0 <= i <= t.len()
{
    if !bind_start(t, i) {
        Some(i)
    } else {
        match param_end(t, i) {
            None => None,
            Some(j1) => if j1 < t.len() && t[j1] is Comma {
                param_list_end(t, j1 + 1)
            } else {
                Some(j1)
            },
        }
    }
}

/// The declared parameters the token list from `i` spells, in source order.
pub open spec fn param_list_at(t: Seq<Token>, i: int, ps: Seq<Param>) -> bool
    decreases t.len() - i when 0 <= i <= t.len()
{
    if !bind_start(t, i) {
        ps.len() == 0
    } else {
        match param_end(t, i) {
            None => false,
            Some(j1) => {
                &&& ps.len() > 0
                &&& param_at(t, i, ps[0])
                &&& if j1 < t.len() && t[j1] is Comma {
                    param_list_at(t, j1 + 1, ps.drop_first())
                } else {
                    ps.len() == 1
                }
            },
        }
    }
}

impl Param {
    /// Parses one declared parameter `name: type`.
    pub fn parse(tokens: &Vec<Token>, i: usize) -> (r: Result<(Param, usize), EngineError>)
        ensures
            r is Ok <==> param_end(tokens@, i as int) is Some,
            r matches Ok((p, j)) ==> param_end(tokens@, i as int) == Some(j as int) && param_at(
                tokens@,
                i as int,
                p,
            ),
            r matches Err(e) ==> e is Syntax,
    {
        if i < tokens.len() && tokens.len() - i >= 3 {
            let name = match &tokens[i] {
                Token::Ident(n) => name_clone(n),
                _ => {
                    return Err(EngineError::Syntax { position: i });
                },
            };
            match &tokens[i + 1] {
                Token::Colon => {},
                _ => {
                    return Err(EngineError::Syntax { position: i + 1 });
                },
            }
            let ty = match &tokens[i + 2] {
                Token::Ty(y) => *y,
                _ => {
                    return Err(EngineError::Syntax { position: i + 2 });
                },
            };
            Ok((Param { name, ty }, i + 3))
        } else {
            Err(EngineError::Syntax { position: i })
        }
    }
}

/// Parses a comma-separated named-parameter list.
pub fn parse_param_list(tokens: &Vec<Token>, i: usize) -> (r: Result<
    (Vec<Param>, usize),
    EngineError,
>)
    requires
        i <= tokens@.len(),
    ensures
        r is Ok <==> param_list_end(tokens@, i as int) is Some,
        r matches Ok((ps, j)) ==> param_list_end(tokens@, i as int) == Some(j as int)
            && param_list_at(tokens@, i as int, ps@) && i <= j <= tokens@.len(),
        r matches Err(e) ==> e is Syntax,
    decreases tokens@.len() - i,
{
    let starts = i < tokens.len() && (match &tokens[i] {
        Token::Ident(_) => true,
        _ => false,
    });
    if !starts {
        let ps: Vec<Param> = Vec::new();
        proof {
            assert(ps@ =~= Seq::<Param>::empty());
        }
        return Ok((ps, i));
    }
    let (p, j1) = match Param::parse(tokens, i) {
        Ok(x) => x,
        Err(e) => {
            return Err(e);
        },
    };
    let more = j1 < tokens.len() && (match &tokens[j1] {
        Token::Comma => true,
        _ => false,
    });
    if more {
        match parse_param_list(tokens, j1 + 1) {
            Ok((rest, j)) => {
                let mut ps: Vec<Param> = Vec::new();
                ps.push(p);
                let mut rest = rest;
                let ghost rest0 = rest@;
                ps.append(&mut rest);
                proof {
                    assert(ps@[0] == p);
                    assert(ps@.drop_first() =~= rest0);
                }
                Ok((ps, j))
            },
            Err(e) => Err(e),
        }
    } else {
        let mut ps: Vec<Param> = Vec::new();
        ps.push(p);
        Ok((ps, j1))
    }
}

/// The grammar determines a destructure-field list's names.
pub proof fn lemma_dfield_list_keys(
    t: Seq<Token>,
    i: int,
    fs1: Seq<DestructField>,
    fs2: Seq<DestructField>,
)
    requires
        0 <= i <= t.len(),
        dfield_list_at(t, i, fs1),
        dfield_list_at(t, i, fs2),
    ensures
        crate::canon::key_seq(fs1) == crate::canon::key_seq(fs2),
    decreases t.len() - i,
{
    if !dfield_start(t, i) {
        assert(crate::canon::key_seq(fs1) =~= crate::canon::key_seq(fs2));
    } else {
        let j1 = dfield_end(t, i)->Some_0;
        assert(fs1[0].name@ == fs2[0].name@);
        if j1 < t.len() && t[j1] is Comma {
            lemma_dfield_list_keys(t, j1 + 1, fs1.drop_first(), fs2.drop_first());
            assert(crate::canon::key_seq(fs1.drop_first()).len() == crate::canon::key_seq(
                fs2.drop_first(),
            ).len());
            assert(fs1.len() == fs2.len());
            assert forall|k: int| 0 <= k < fs1.len() implies crate::canon::key_seq(fs1)[k]
                == crate::canon::key_seq(fs2)[k] by {
                if k > 0 {
                    assert(fs1.drop_first()[k - 1] == fs1[k]);
                    assert(fs2.drop_first()[k - 1] == fs2[k]);
                    assert(crate::canon::key_seq(fs1.drop_first())[k - 1] == fs1.drop_first()[k
                        - 1].key());
                    assert(crate::canon::key_seq(fs2.drop_first())[k - 1] == fs2.drop_first()[k
                        - 1].key());
                    assert(crate::canon::key_seq(fs1)[k] == fs1[k].key());
                    assert(crate::canon::key_seq(fs2)[k] == fs2[k].key());
                }
            }
            assert(crate::canon::key_seq(fs1) =~= crate::canon::key_seq(fs2));
        } else {
            assert(crate::canon::key_seq(fs1) =~= crate::canon::key_seq(fs2));
        }
    }
}

/// The grammar determines a named-parameter list's names.
pub proof fn lemma_param_list_keys(t: Seq<Token>, i: int, ps1: Seq<Param>, ps2: Seq<Param>)
    requires
        0 <= i <= t.len(),
        param_list_at(t, i, ps1),
        param_list_at(t, i, ps2),
    ensures
        crate::canon::key_seq(ps1) == crate::canon::key_seq(ps2),
    decreases t.len() - i,
{
    if !bind_start(t, i) {
        assert(crate::canon::key_seq(ps1) =~= crate::canon::key_seq(ps2));
    } else {
        let j1 = param_end(t, i)->Some_0;
        assert(ps1[0].name@ == ps2[0].name@);
        if j1 < t.len() && t[j1] is Comma {
            lemma_param_list_keys(t, j1 + 1, ps1.drop_first(), ps2.drop_first());
            assert(crate::canon::key_seq(ps1.drop_first()).len() == crate::canon::key_seq(
                ps2.drop_first(),
            ).len());
            assert(ps1.len() == ps2.len());
            assert forall|k: int| 0 <= k < ps1.len() implies crate::canon::key_seq(ps1)[k]
                == crate::canon::key_seq(ps2)[k] by {
                if k > 0 {
                    assert(ps1.drop_first()[k - 1] == ps1[k]);
                    assert(ps2.drop_first()[k - 1] == ps2[k]);
                    assert(crate::canon::key_seq(ps1.drop_first())[k - 1] == ps1.drop_first()[k
                        - 1].key());
                    assert(crate::canon::key_seq(ps2.drop_first())[k - 1] == ps2.drop_first()[k
                        - 1].key());
                    assert(crate::canon::key_seq(ps1)[k] == ps1[k].key());
                    assert(crate::canon::key_seq(ps2)[k] == ps2[k].key());
                }
            }
            assert(crate::canon::key_seq(ps1) =~= crate::canon::key_seq(ps2));
        } else {
            assert(crate::canon::key_seq(ps1) =~= crate::canon::key_seq(ps2));
        }
    }
}

/// A destructure expression, `let [ref] { fields } = expr`.
#[derive(Debug, PartialEq)]
pub struct DestructExpression {
    /// The list-wide by-reference marker, applying to every field not
    /// individually marked.
    pub list_ref: bool,
    pub fields: DestructFields,
    /// The scrutinee expression.
    pub expr: u64,
}

/// The position of the field-list opening brace of a destructure expression.
pub open spec fn dexpr_brace(t: Seq<Token>) -> int {
    if t.len() > 1 && t[1] is KwRef {
        2
    } else {
        1
    }
}

/// Whether a whole token list spells a destructure expression.
pub open spec fn dexpr_parseable(t: Seq<Token>) -> bool {
    let i1 = dexpr_brace(t);
    &&& t.len() > 0 && t[0] is KwLet
    &&& i1 < t.len() && t[i1] is LBrace
    &&& match dfield_list_end(t, i1 + 1) {
        None => false,
        Some(j) => j + 3 == t.len() && t[j] is RBrace && t[j + 1] is Equals && t[j + 2] is Expr,
    }
}

/// The destructure expression a whole token list spells.
pub open spec fn dexpr_at(t: Seq<Token>, d: DestructExpression) -> bool {
    let i1 = dexpr_brace(t);
    &&& dexpr_parseable(t)
    &&& d.list_ref == (i1 == 2)
    &&& dfield_list_at(t, i1 + 1, d.fields.fields@)
    &&& t[t.len() - 1] matches Token::Expr(e) && d.expr == e
}

impl DestructExpression {
    /// Parses a whole destructure expression `let [ref] { fields } = expr`.
    pub fn parse(tokens: &Vec<Token>) -> (r: Result<DestructExpression, EngineError>)
        ensures
            r is Ok <==> dexpr_parseable(tokens@),
            r matches Ok(d) ==> dexpr_at(tokens@, d),
            r matches Err(e) ==> e is Syntax,
    {
        if tokens.len() == 0 {
            return Err(EngineError::Syntax { position: 0 });
        }
        match &tokens[0] {
            Token::KwLet => {},
            _ => {
                return Err(EngineError::Syntax { position: 0 });
            },
        }
        let list_ref = tokens.len() > 1 && (match &tokens[1] {
            Token::KwRef => true,
            _ => false,
        });
        let i1 = if list_ref {
            2
        } else {
            1
        };
        if i1 >= tokens.len() {
            return Err(EngineError::Syntax { position: i1 });
        }
        match &tokens[i1] {
            Token::LBrace => {},
            _ => {
                return Err(EngineError::Syntax { position: i1 });
            },
        }
        let (fields, j) = match DestructFields::parse(tokens, i1 + 1) {
            Ok(x) => x,
            Err(e) => {
                return Err(e);
            },
        };
        if !(j < tokens.len() && tokens.len() - j == 3) {
            return Err(EngineError::Syntax { position: j });
        }
        match &tokens[j] {
            Token::RBrace => {},
            _ => {
                return Err(EngineError::Syntax { position: j });
            },
        }
        match &tokens[j + 1] {
            Token::Equals => {},
            _ => {
                return Err(EngineError::Syntax { position: j + 1 });
            },
        }
        let expr = match &tokens[j + 2] {
            Token::Expr(e) => *e,
            _ => {
                return Err(EngineError::Syntax { position: j + 2 });
            },
        };
        Ok(DestructExpression { list_ref, fields, expr })
    }
}

/// A destructure function declaration,
/// `fn name([self,] { name: Type, ... }) [-> Ret] { body }`.
#[derive(Debug, PartialEq)]
pub struct DestructFunction {
    /// The function's identifier, shared by the outer and inner function.
    pub name: Vec<u8>,
    /// Whether the declaration is a method taking `self`.
    pub has_self: bool,
    /// The named parameters, in source order.
    pub params: Vec<Param>,
    /// The declared return type, if any.
    pub ret: Option<u64>,
    /// The function body.
    pub body: u64,
}

/// The position of the parameter-list opening brace of a destructure
/// function declaration.
pub open spec fn dfun_brace(t: Seq<Token>) -> int {
    if t.len() > 3 && t[3] is KwSelf {
        if t.len() > 4 && t[4] is Comma {
            5
        } else {
            4
        }
    } else {
        3
    }
}

/// Whether a whole token list spells a destructure function declaration.
pub open spec fn dfun_parseable(t: Seq<Token>) -> bool {
    let i4 = dfun_brace(t);
    &&& t.len() > 2 && t[0] is KwFn && t[1] is Ident && t[2] is LParen
    &&& i4 < t.len() && t[i4] is LBrace
    &&& match param_list_end(t, i4 + 1) {
        None => false,
        Some(jp) => {
            &&& jp + 2 < t.len() && t[jp] is RBrace && t[jp + 1] is RParen
            &&& if jp + 2 < t.len() && t[jp + 2] is RArrow {
                jp + 5 == t.len() && t[jp + 3] is Ty && t[jp + 4] is Body
            } else {
                jp + 3 == t.len() && t[jp + 2] is Body
            }
        },
    }
}

/// The destructure function declaration a whole token list spells.
pub open spec fn dfun_at(t: Seq<Token>, d: DestructFunction) -> bool {
    let i4 = dfun_brace(t);
    &&& dfun_parseable(t)
    &&& t[1] matches Token::Ident(n) && d.name@ == n@
    &&& d.has_self == (t.len() > 3 && t[3] is KwSelf)
    &&& param_list_at(t, i4 + 1, d.params@)
    &&& match param_list_end(t, i4 + 1) {
        None => false,
        Some(jp) => if jp + 2 < t.len() && t[jp + 2] is RArrow {
            &&& t[jp + 3] matches Token::Ty(y) && d.ret == Some(y)
            &&& t[jp + 4] matches Token::Body(b) && d.body == b
        } else {
            &&& d.ret is None
            &&& t[jp + 2] matches Token::Body(b) && d.body == b
        },
    }
}

impl DestructFunction {
    /// Parses a whole destructure function declaration.
    pub fn parse(tokens: &Vec<Token>) -> (r: Result<DestructFunction, EngineError>)
        ensures
            r is Ok <==> dfun_parseable(tokens@),
            r matches Ok(d) ==> dfun_at(tokens@, d),
            r matches Err(e) ==> e is Syntax,
    {
        if tokens.len() <= 2 {
            return Err(EngineError::Syntax { position: 0 });
        }
        match &tokens[0] {
            Token::KwFn => {},
            _ => {
                return Err(EngineError::Syntax { position: 0 });
            },
        }
        let name = match &tokens[1] {
            Token::Ident(n) => name_clone(n),
            _ => {
                return Err(EngineError::Syntax { position: 1 });
            },
        };
        match &tokens[2] {
            Token::LParen => {},
            _ => {
                return Err(EngineError::Syntax { position: 2 });
            },
        }
        let has_self = tokens.len() > 3 && (match &tokens[3] {
            Token::KwSelf => true,
            _ => false,
        });
        let i4: usize = if has_self {
            if tokens.len() > 4 && (match &tokens[4] {
                Token::Comma => true,
                _ => false,
            }) {
                5
            } else {
                4
            }
        } else {
            3
        };
        if i4 >= tokens.len() {
            return Err(EngineError::Syntax { position: i4 });
        }
        match &tokens[i4] {
            Token::LBrace => {},
            _ => {
                return Err(EngineError::Syntax { position: i4 });
            },
        }
        let (params, jp) = match parse_param_list(tokens, i4 + 1) {
            Ok(x) => x,
            Err(e) => {
                return Err(e);
            },
        };
        if !(jp < tokens.len() && tokens.len() - jp > 2) {
            return Err(EngineError::Syntax { position: jp });
        }
        match &tokens[jp] {
            Token::RBrace => {},
            _ => {
                return Err(EngineError::Syntax { position: jp });
            },
        }
        match &tokens[jp + 1] {
            Token::RParen => {},
            _ => {
                return Err(EngineError::Syntax { position: jp + 1 });
            },
        }
        let has_ret = match &tokens[jp + 2] {
            Token::RArrow => true,
            _ => false,
        };
        if has_ret {
            if !(tokens.len() - jp == 5) {
                return Err(EngineError::Syntax { position: jp + 2 });
            }
            let ret = match &tokens[jp + 3] {
                Token::Ty(y) => *y,
                _ => {
                    return Err(EngineError::Syntax { position: jp + 3 });
                },
            };
            let body = match &tokens[jp + 4] {
                Token::Body(b) => *b,
                _ => {
                    return Err(EngineError::Syntax { position: jp + 4 });
                },
            };
            Ok(DestructFunction { name, has_self, params, ret: Some(ret), body })
        } else {
            if !(tokens.len() - jp == 3) {
                return Err(EngineError::Syntax { position: jp + 2 });
            }
            let body = match &tokens[jp + 2] {
                Token::Body(b) => *b,
                _ => {
                    return Err(EngineError::Syntax { position: jp + 2 });
                },
            };
            Ok(DestructFunction { name, has_self, params, ret: None, body })
        }
    }
}

/// Either of the two destructure surface forms.
#[derive(Debug, PartialEq)]
pub enum Destruct {
    DestructExpression(DestructExpression),
    DestructFunction(DestructFunction),
}

/// Whether a whole token list spells one of the destructure forms.
pub open spec fn destruct_parseable(t: Seq<Token>) -> bool {
    if t.len() > 0 && t[0] is KwFn {
        dfun_parseable(t)
    } else {
        dexpr_parseable(t)
    }
}

/// The destructure form a whole token list spells.
pub open spec fn destruct_at(t: Seq<Token>, d: Destruct) -> bool {
    if t.len() > 0 && t[0] is KwFn {
        d matches Destruct::DestructFunction(f) && dfun_at(t, f)
    } else {
        d matches Destruct::DestructExpression(e) && dexpr_at(t, e)
    }
}

impl Destruct {
    /// Parses either destructure form, deciding by the leading token.
    pub fn parse(tokens: &Vec<Token>) -> (r: Result<Destruct, EngineError>)
        ensures
            r is Ok <==> destruct_parseable(tokens@),
            r matches Ok(d) ==> destruct_at(tokens@, d),
            r matches Err(e) ==> e is Syntax,
    {
        let is_fn = tokens.len() > 0 && (match &tokens[0] {
            Token::KwFn => true,
            _ => false,
        });
        if is_fn {
            match DestructFunction::parse(tokens) {
                Ok(f) => Ok(Destruct::DestructFunction(f)),
                Err(e) => Err(e),
            }
        } else {
            match DestructExpression::parse(tokens) {
                Ok(e) => Ok(Destruct::DestructExpression(e)),
                Err(e) => Err(e),
            }
        }
    }
}

/// The contents of a record construction, `name: expr, ...`.
#[derive(Debug, PartialEq)]
pub struct InstructStruct {
    /// The field bindings, in source order.
    pub fields: Vec<BasicBind>,
}

/// Whether a whole token list spells a construct list.
pub open spec fn istruct_parseable(t: Seq<Token>) -> bool {
    bind_list_end(t, 0) == Some(t.len() as int)
}

/// The construct list a whole token list spells.
pub open spec fn istruct_at(t: Seq<Token>, s: InstructStruct) -> bool {
    &&& istruct_parseable(t)
    &&& bind_list_at(t, 0, s.fields@)
}

impl InstructStruct {
    /// Parses a whole construct list.
    pub fn parse(tokens: &Vec<Token>) -> (r: Result<InstructStruct, EngineError>)
        ensures
            r is Ok <==> istruct_parseable(tokens@),
            r matches Ok(s) ==> istruct_at(tokens@, s),
            r matches Err(e) ==> e is Syntax,
    {
        match parse_bind_list(tokens, 0) {
            Ok((fields, j)) => {
                if j == tokens.len() {
                    Ok(InstructStruct { fields })
                } else {
                    Err(EngineError::Syntax { position: j })
                }
            },
            Err(e) => Err(e),
        }
    }
}

/// A named function call, `callee, { name: expr, ... }`.
#[derive(Debug, PartialEq)]
pub struct InstructFunctionCall {
    /// The callee expression.
    pub callee: u64,
    /// The named arguments.
    pub args: InstructStruct,
}

/// Whether a whole token list spells a named call.
pub open spec fn icall_parseable(t: Seq<Token>) -> bool {
    &&& t.len() > 2 && t[0] is Expr && t[1] is Comma && t[2] is LBrace
    &&& match bind_list_end(t, 3) {
        None => false,
        Some(j) => j + 1 == t.len() && t[j] is RBrace,
    }
}

/// The named call a whole token list spells.
pub open spec fn icall_at(t: Seq<Token>, c: InstructFunctionCall) -> bool {
    &&& icall_parseable(t)
    &&& t[0] matches Token::Expr(e) && c.callee == e
    &&& bind_list_at(t, 3, c.args.fields@)
}

impl InstructFunctionCall {
    /// Parses a whole named call `callee, { arguments }`.
    pub fn parse(tokens: &Vec<Token>) -> (r: Result<InstructFunctionCall, EngineError>)
        ensures
            r is Ok <==> icall_parseable(tokens@),
            r matches Ok(c) ==> icall_at(tokens@, c),
            r matches Err(e) ==> e is Syntax,
    {
        if tokens.len() <= 2 {
            return Err(EngineError::Syntax { position: 0 });
        }
        let callee = match &tokens[0] {
            Token::Expr(e) => *e,
            _ => {
                return Err(EngineError::Syntax { position: 0 });
            },
        };
        match &tokens[1] {
            Token::Comma => {},
            _ => {
                return Err(EngineError::Syntax { position: 1 });
            },
        }
        match &tokens[2] {
            Token::LBrace => {},
            _ => {
                return Err(EngineError::Syntax { position: 2 });
            },
        }
        let (fields, j) = match parse_bind_list(tokens, 3) {
            Ok(x) => x,
            Err(e) => {
                return Err(e);
            },
        };
        if j < tokens.len() && tokens.len() - j == 1 {
            match &tokens[j] {
                Token::RBrace => {},
                _ => {
                    return Err(EngineError::Syntax { position: j });
                },
            }
            Ok(InstructFunctionCall { callee, args: InstructStruct { fields } })
        } else {
            Err(EngineError::Syntax { position: j })
        }
    }
}

} // verus!
