//! The interface duplication-implementation generator.
//!
//! Given the token sequence of an interface signature — an optional generic
//! parameter list, the interface's path, and an optional constraint clause —
//! this module decomposes it and emits the text of the standard "a duplicate
//! of this interface handle" implementation: native duplication for an owned
//! handle of that interface, whose body only calls `clone_box`.

use vstd::prelude::*;

verus! {

/// One token of an interface signature.
pub enum Token {
    /// The generic-list opening delimiter `<`.
    Open,
    /// The generic-list closing delimiter `>`.
    Close,
    /// The constraint-clause keyword `where`.
    Where,
    /// Any other token, carried verbatim.
    Text(String),
}

/// How a token moves the nesting depth of generic-list delimiters.
pub open spec fn delta(t: Token) -> int {
    match t {
        Token::Open => 1,
        Token::Close => -1,
        _ => 0,
    }
}

/// Number of unmatched opening delimiters after reading `s`.
pub open spec fn depth(s: Seq<Token>) -> int
    decreases s.len(),
{
    if s.len() == 0 {
        0
    } else {
        depth(s.drop_last()) + delta(s.last())
    }
}

/// `s[j]` is the closing delimiter that matches an opening delimiter read
/// just before `s`: the first closing delimiter at nesting depth zero.
pub open spec fn closes_at(s: Seq<Token>, j: int) -> bool {
    &&& 0 <= j < s.len()
    &&& s[j] is Close
    &&& depth(s.take(j)) == 0
    &&& forall|k: int| 0 <= k < j ==> !(s[k] is Close && depth(s.take(k)) == 0)
}

pub open spec fn has_matching_close(s: Seq<Token>) -> bool {
    exists|j: int| closes_at(s, j)
}

pub open spec fn close_index(s: Seq<Token>) -> int {
    choose|j: int| closes_at(s, j)
}

/// The signature opens with a generic parameter list.
pub open spec fn starts_generics(tokens: Seq<Token>) -> bool {
    tokens.len() > 0 && tokens[0] is Open
}

/// The tokens of the generic parameter list, delimiters excluded.
pub open spec fn generics_of(tokens: Seq<Token>) -> Seq<Token> {
    if starts_generics(tokens) {
        tokens.skip(1).take(close_index(tokens.skip(1)))
    } else {
        Seq::empty()
    }
}

/// What remains of the signature once the generic parameter list — if any —
/// has been consumed.
pub open spec fn after_generics(tokens: Seq<Token>) -> Seq<Token> {
    if starts_generics(tokens) {
        tokens.skip(2 + close_index(tokens.skip(1)))
    } else {
        tokens
    }
}

/// `s[j]` is the first constraint-clause keyword of `s`.
pub open spec fn where_at(s: Seq<Token>, j: int) -> bool {
    &&& 0 <= j < s.len()
    &&& s[j] is Where
    &&& forall|k: int| 0 <= k < j ==> !(s[k] is Where)
}

pub open spec fn has_where_keyword(s: Seq<Token>) -> bool {
    exists|j: int| where_at(s, j)
}

pub open spec fn where_index(s: Seq<Token>) -> int {
    choose|j: int| where_at(s, j)
}

/// The interface's path tokens: everything after the generic parameter list
/// up to the constraint-clause keyword or the end of the signature.
pub open spec fn path_of(tokens: Seq<Token>) -> Seq<Token> {
    let r = after_generics(tokens);
    if has_where_keyword(r) {
        r.take(where_index(r))
    } else {
        r
    }
}

/// The constraint-clause tokens, the keyword itself excluded.
pub open spec fn constraints_of(tokens: Seq<Token>) -> Seq<Token> {
    let r = after_generics(tokens);
    if has_where_keyword(r) {
        r.skip(where_index(r) + 1)
    } else {
        Seq::empty()
    }
}

/// An opened generic parameter list is closed again at nesting depth zero.
pub open spec fn generics_balanced(tokens: Seq<Token>) -> bool {
    starts_generics(tokens) ==> has_matching_close(tokens.skip(1))
}

/// A signature the generator accepts: delimiters balanced and an interface
/// name present.
pub open spec fn well_formed(tokens: Seq<Token>) -> bool {
    generics_balanced(tokens) && path_of(tokens).len() > 0
}

/// The decomposition of one interface signature: its generic parameter list,
/// its path, and its constraint clause, each as the verbatim tokens.
pub struct InterfaceSignature {
    /// The signature opened with a generic parameter list (possibly empty).
    pub has_generics: bool,
    /// Tokens between the outermost generic-list delimiters.
    pub generics: Vec<Token>,
    /// Tokens naming the interface.
    pub path: Vec<Token>,
    /// The signature carried a constraint clause (possibly empty).
    pub has_where: bool,
    /// Tokens of the constraint clause, the keyword excluded.
    pub constraints: Vec<Token>,
}

/// The mathematical value of a decomposition: the three token lists and the
/// two presence flags.
pub ghost struct SignatureView {
    pub has_generics: bool,
    pub generics: Seq<Token>,
    pub path: Seq<Token>,
    pub has_where: bool,
    pub constraints: Seq<Token>,
}

impl View for InterfaceSignature {
    type V = SignatureView;

    open spec fn view(&self) -> SignatureView {
        SignatureView {
            has_generics: self.has_generics,
            generics: self.generics@,
            path: self.path@,
            has_where: self.has_where,
            constraints: self.constraints@,
        }
    }
}

/// The decomposition of a well-formed signature.
pub open spec fn signature_of(tokens: Seq<Token>) -> SignatureView {
    SignatureView {
        has_generics: starts_generics(tokens),
        generics: generics_of(tokens),
        path: path_of(tokens),
        has_where: has_where_keyword(after_generics(tokens)),
        constraints: constraints_of(tokens),
    }
}

/// Why a signature was rejected. Rejection is a definition-time failure: the
/// generator never runs as part of the duplication operations themselves.
#[derive(Debug)]
pub enum SignatureError {
    /// A generic parameter list was opened and never closed.
    UnbalancedGenerics,
    /// No token was left for the interface's path.
    MissingInterfaceName,
}

/// Decompose an interface signature: an optional generic parameter list
/// (nested delimiters tracked by depth), then the interface path, then an
/// optional constraint clause introduced by its keyword.
///
/// Returns the decomposition exactly when the signature is well formed, and
/// otherwise says which of the two defects was found.
pub fn parse_signature(tokens: Vec<Token>) -> (r: Result<InterfaceSignature, SignatureError>)
    ensures
        match r {
            Ok(sig) => well_formed(tokens@) && sig@ == signature_of(tokens@),
            Err(SignatureError::UnbalancedGenerics) => starts_generics(tokens@)
                && !has_matching_close(tokens@.skip(1)),
            Err(SignatureError::MissingInterfaceName) => generics_balanced(tokens@)
                && path_of(tokens@).len() == 0,
        },
{
    let ghost orig: Seq<Token> = tokens@;
    let mut rest = tokens;
    let mut generics: Vec<Token> = Vec::new();
    let mut has_generics = false;

    if rest.len() > 0 && matches!(rest[0], Token::Open) {
        has_generics = true;
        let _open = rest.remove(0);
        let ghost s: Seq<Token> = orig.skip(1);
        let total = rest.len();
        let mut nesting: usize = 0;
        let mut unbalanced = false;
        let ghost mut i: int = 0;
        proof {
            assert(rest@ =~= s);
            assert(rest@ =~= s.skip(0));
            assert(generics@ =~= s.take(0));
        }
        loop
            invariant_except_break
                s == orig.skip(1),
                s.len() == total,
                0 <= i <= s.len(),
                rest@ == s.skip(i),
                generics@ == s.take(i),
                nesting == depth(s.take(i)),
                nesting <= i,
                !unbalanced,
                forall|k: int| 0 <= k < i ==> !(s[k] is Close && depth(s.take(k)) == 0),
            ensures
                unbalanced ==> !has_matching_close(s),
                !unbalanced ==> {
                    &&& has_matching_close(s)
                    &&& generics@ == s.take(close_index(s))
                    &&& rest@ == s.skip(close_index(s) + 1)
                },
            decreases rest.len(),
        {
            if rest.len() == 0 {
                proof {
                    assert(i == s.len());
                    assert forall|j: int| !closes_at(s, j) by {
                        if 0 <= j < s.len() {
                            assert(!(s[j] is Close && depth(s.take(j)) == 0));
                        }
                    }
                }
                unbalanced = true;
                break;
            }
            proof {
                assert(s.skip(i)[0] == s[i]);
                assert(s.take(i + 1).drop_last() =~= s.take(i));
                assert(s.take(i + 1).last() == s[i]);
            }
            let t = rest.remove(0);
            proof {
                assert(rest@ =~= s.skip(i + 1));
            }
            match t {
                Token::Close => {
                    if nesting == 0 {
                        proof {
                            assert(closes_at(s, i));
                            lemma_closes_at_unique(s, i, close_index(s));
                        }
                        break;
                    }
                    nesting = nesting - 1;
                    generics.push(t);
                }
                Token::Open => {
                    nesting = nesting + 1;
                    generics.push(t);
                }
                _ => {
                    generics.push(t);
                }
            }
            proof {
                i = i + 1;
            }
        }
        if unbalanced {
            return Err(SignatureError::UnbalancedGenerics);
        }
    }

    // `rest` now holds the signature after the generic parameter list.
    let ghost r: Seq<Token> = after_generics(orig);
    proof {
        if starts_generics(orig) {
            assert(orig.skip(1).skip(close_index(orig.skip(1)) + 1) =~= orig.skip(
                2 + close_index(orig.skip(1)),
            ));
        }
        assert(rest@ == r);
        assert(generics@ == generics_of(orig));
        assert(has_generics == starts_generics(orig));
    }

    let mut path: Vec<Token> = Vec::new();
    let mut has_where = false;
    let ghost mut i: int = 0;
    proof {
        assert(rest@ =~= r.skip(0));
        assert(path@ =~= r.take(0));
    }
    loop
        invariant_except_break
            r == after_generics(orig),
            0 <= i <= r.len(),
            rest@ == r.skip(i),
            path@ == r.take(i),
            !has_where,
            forall|k: int| 0 <= k < i ==> !(r[k] is Where),
        ensures
            has_where == has_where_keyword(r),
            path@ == (if has_where_keyword(r) {
                r.take(where_index(r))
            } else {
                r
            }),
            has_where ==> rest@ == r.skip(where_index(r) + 1),
        decreases rest.len(),
    {
        if rest.len() == 0 {
            proof {
                assert(i == r.len());
                assert(path@ =~= r);
                assert forall|j: int| !where_at(r, j) by {
                    if 0 <= j < r.len() {
                        assert(!(r[j] is Where));
                    }
                }
            }
            break;
        }
        proof {
            assert(r.skip(i)[0] == r[i]);
            assert(r.take(i + 1).drop_last() =~= r.take(i));
        }
        let t = rest.remove(0);
        proof {
            assert(rest@ =~= r.skip(i + 1));
        }
        match t {
            Token::Where => {
                proof {
                    assert(where_at(r, i));
                    lemma_where_at_unique(r, i, where_index(r));
                }
                has_where = true;
                break;
            }
            _ => {
                path.push(t);
            }
        }
        proof {
            i = i + 1;
        }
    }

    if path.len() == 0 {
        return Err(SignatureError::MissingInterfaceName);
    }

    let constraints = if has_where {
        rest
    } else {
        Vec::new()
    };

    Ok(InterfaceSignature { has_generics, generics, path, has_where, constraints })
}

/// The text a token stands for in the emitted implementation.
pub open spec fn token_text(t: Token) -> Seq<char> {
    match t {
        Token::Open => "<"@,
        Token::Close => ">"@,
        Token::Where => "where"@,
        Token::Text(s) => s@,
    }
}

/// The texts of a token sequence, each token followed by one space.
pub open spec fn tokens_text(s: Seq<Token>) -> Seq<char>
    decreases s.len(),
{
    if s.len() == 0 {
        Seq::empty()
    } else {
        tokens_text(s.drop_last()) + token_text(s.last()) + " "@
    }
}

/// The text of the implementation emitted for a decomposed signature: native
/// duplication for an owned handle of the interface, generic over the
/// captured parameters, under the captured constraints, with a body that
/// only calls the polymorphic duplication operation.
pub open spec fn emitted_impl(sig: SignatureView) -> Seq<char> {
    "impl<'clone, "@ + tokens_text(sig.generics) + "> Clone for Box<dyn "@ + tokens_text(sig.path)
        + "+ 'clone> where "@ + tokens_text(sig.constraints)
        + "{ fn clone(&self) -> Self { clone_box(&**self) } }"@
}

/// Append each token's text, followed by one space, to `text`.
fn append_tokens(text: &mut String, tokens: &Vec<Token>)
    ensures
        final(text)@ == old(text)@ + tokens_text(tokens@),
{
    let mut idx: usize = 0;
    while idx < tokens.len()
        invariant
            idx <= tokens.len(),
            text@ == old(text)@ + tokens_text(tokens@.take(idx as int)),
        decreases tokens.len() - idx,
    {
        match &tokens[idx] {
            Token::Open => text.append("<"),
            Token::Close => text.append(">"),
            Token::Where => text.append("where"),
            Token::Text(s) => text.append(s.as_str()),
        }
        text.append(" ");
        proof {
            let ghost upto = tokens@.take(idx as int + 1);
            assert(upto.drop_last() =~= tokens@.take(idx as int));
            assert(upto.last() == tokens@[idx as int]);
        }
        idx = idx + 1;
    }
    proof {
        assert(tokens@.take(tokens.len() as int) =~= tokens@);
    }
}

/// Emit the duplication implementation for a decomposed interface signature.
pub fn emit_impl(sig: &InterfaceSignature) -> (text: String)
    ensures
        text@ == emitted_impl(sig@),
{
    let mut text = String::from_str("impl<'clone, ");
    append_tokens(&mut text, &sig.generics);
    text.append("> Clone for Box<dyn ");
    append_tokens(&mut text, &sig.path);
    text.append("+ 'clone> where ");
    append_tokens(&mut text, &sig.constraints);
    text.append("{ fn clone(&self) -> Self { clone_box(&**self) } }");
    text
}

/// The generator: decompose an interface signature and emit the text of the
/// implementation that makes owned handles of that interface support native
/// duplication. A malformed signature is reported instead, as at definition
/// time.
pub fn clone_trait_object(tokens: Vec<Token>) -> (r: Result<String, SignatureError>)
    ensures
        match r {
            Ok(text) => well_formed(tokens@) && text@ == emitted_impl(signature_of(tokens@)),
            Err(SignatureError::UnbalancedGenerics) => starts_generics(tokens@)
                && !has_matching_close(tokens@.skip(1)),
            Err(SignatureError::MissingInterfaceName) => generics_balanced(tokens@)
                && path_of(tokens@).len() == 0,
        },
{
    match parse_signature(tokens) {
        Ok(sig) => Ok(emit_impl(&sig)),
        Err(e) => Err(e),
    }
}

/// The tokens a decomposition stands for, reassembled in their order.
pub open spec fn reassembled(sig: SignatureView) -> Seq<Token> {
    (if sig.has_generics {
        seq![Token::Open] + sig.generics + seq![Token::Close]
    } else {
        Seq::<Token>::empty()
    }) + sig.path + (if sig.has_where {
        seq![Token::Where] + sig.constraints
    } else {
        Seq::<Token>::empty()
    })
}

/// The decomposition of a well-formed signature loses nothing and invents
/// nothing: putting the delimiters, the keyword and the three captured token
/// lists back in order gives back exactly the input.
pub proof fn lemma_signature_round_trip(tokens: Seq<Token>)
    requires
        well_formed(tokens),
    ensures
        reassembled(signature_of(tokens)) == tokens,
{
    let r = after_generics(tokens);
    if has_where_keyword(r) {
        let w = where_index(r);
        assert(where_at(r, w));
        assert(r[w] == Token::Where);
        assert(r =~= r.take(w) + seq![r[w]] + r.skip(w + 1));
    }
    if starts_generics(tokens) {
        let s = tokens.skip(1);
        let c = close_index(s);
        assert(closes_at(s, c));
        assert(s[c] == Token::Close);
        assert(tokens[0] == Token::Open);
        assert(tokens =~= seq![tokens[0]] + s);
        assert(s =~= s.take(c) + seq![s[c]] + s.skip(c + 1));
        assert(r =~= s.skip(c + 1));
    }
    assert(reassembled(signature_of(tokens)) =~= tokens);
}

/// Two closing delimiters cannot both be the matching one.
proof fn lemma_closes_at_unique(s: Seq<Token>, j1: int, j2: int)
    requires
        closes_at(s, j1),
        closes_at(s, j2),
    ensures
        j1 == j2,
{
    if j1 < j2 {
        assert(!(s[j1] is Close && depth(s.take(j1)) == 0));
    }
    if j2 < j1 {
        assert(!(s[j2] is Close && depth(s.take(j2)) == 0));
    }
}

/// Two constraint-clause keywords cannot both be the first one.
proof fn lemma_where_at_unique(s: Seq<Token>, j1: int, j2: int)
    requires
        where_at(s, j1),
        where_at(s, j2),
    ensures
        j1 == j2,
{
    if j1 < j2 {
        assert(!(s[j1] is Where));
    }
    if j2 < j1 {
        assert(!(s[j2] is Where));
    }
}

} // verus!
