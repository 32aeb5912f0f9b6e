//! The transform of a document: one matrix, written on the root `svg` element.

use crate::attributes::{
    all_well_formed, count_key, count_key_positive, first_with_key, set_attribute,
    set_attribute_is_found, set_attribute_once, set_attribute_twice, well_formed_attributes,
    with_attribute,
};
use crate::bytes::{append, ascii, copy, literal, same_bytes};
use crate::error::SvgError;
use crate::rewrite::{
    rebuilt_tag_name, rewrite, rewrite_fixed, rewrite_token_by_token, rewritten_document,
    rewritten_token, rewritten_tokens, selected, start_tag, targeted, Pass, Rule,
};
use crate::xml::{
    is_space, name_len_bounds, tag_name, xml_document, Attribute, AttributeView, Token, TokenKind,
    TokenView,
};
use vstd::prelude::*;

verus! {

/// Whether `byte` may stand in the text of a number: an ASCII digit or
/// letter, a sign or a decimal point.
pub open spec fn is_number_byte(byte: u8) -> bool {
    ||| 0x30 <= byte <= 0x39
    ||| 0x41 <= byte <= 0x5a
    ||| 0x61 <= byte <= 0x7a
    ||| byte == 0x2b
    ||| byte == 0x2d
    ||| byte == 0x2e
}

/// Whether `byte` has to be escaped in the value of an attribute: a quote,
/// an ampersand or an angle bracket.
pub open spec fn needs_escape(byte: u8) -> bool {
    byte == 0x22 || byte == 0x27 || byte == 0x26 || byte == 0x3c || byte == 0x3e
}

/// Whether `text` can be written as a coefficient: it is not empty and
/// holds bytes of numbers only.
pub open spec fn is_number_text(text: Seq<u8>) -> bool {
    text.len() > 0 && forall|i: int| 0 <= i < text.len() ==> is_number_byte(#[trigger] text[i])
}

/// A coefficient of a matrix, as the text that is written for it.
#[derive(Debug, PartialEq, Eq)]
pub struct Coefficient {
    text: Vec<u8>,
}

impl View for Coefficient {
    type V = Seq<u8>;

    closed spec fn view(&self) -> Seq<u8> {
        self.text@
    }
}

impl Coefficient {
    #[verifier::type_invariant]
    spec fn inv(self) -> bool {
        is_number_text(self.text@)
    }

    /// The coefficient written as `text`, where `text` is the text of a number.
    pub fn new(text: &[u8]) -> (coefficient: Option<Coefficient>)
        ensures
            coefficient is Some <==> is_number_text(text@),
            coefficient matches Some(c) ==> c@ == text@,
    {
        if text.len() == 0 {
            return None;
        }
        let mut i: usize = 0;
        while i < text.len()
            invariant
                0 < text@.len(),
                i <= text@.len(),
                forall|j: int| 0 <= j < i ==> is_number_byte(#[trigger] text@[j]),
            decreases text@.len() - i,
        {
            let byte = text[i];
            let number = (0x30 <= byte && byte <= 0x39) || (0x41 <= byte && byte <= 0x5a) || (0x61
                <= byte && byte <= 0x7a) || byte == 0x2b || byte == 0x2d || byte == 0x2e;
            if !number {
                assert(!is_number_byte(text@[i as int]));
                return None;
            }
            i += 1;
        }
        Some(Coefficient { text: copy(text) })
    }

    /// The text of the coefficient.
    pub fn text(&self) -> (text: &[u8])
        ensures
            text@ == self@,
            is_number_text(self@),
    {
        proof {
            use_type_invariant(self);
        }
        self.text.as_slice()
    }
}

impl Clone for Coefficient {
    fn clone(&self) -> (other: Coefficient)
        ensures
            other@ == self@,
    {
        proof {
            use_type_invariant(self);
        }
        Coefficient { text: copy(self.text.as_slice()) }
    }
}

/// An affine matrix, `x' = a*x + c*y + e` and `y' = b*x + d*y + f`.
#[derive(Clone, Debug, PartialEq, Eq)]
pub struct Matrix {
    pub a: Coefficient,
    pub b: Coefficient,
    pub c: Coefficient,
    pub d: Coefficient,
    pub e: Coefficient,
    pub f: Coefficient,
}

/// Whether no byte of `text` has to be escaped.
pub open spec fn plain(text: Seq<u8>) -> bool {
    forall|i: int| 0 <= i < text.len() ==> !needs_escape(#[trigger] text[i])
}

/// Appends bytes that need no escaping to bytes that need none.
fn append_plain(out: &mut Vec<u8>, bytes: &[u8])
    requires
        plain(old(out)@),
        plain(bytes@) || is_number_text(bytes@),
    ensures
        final(out)@ == old(out)@ + bytes@,
        plain(final(out)@),
{
    append(out, bytes);
    assert forall|i: int| 0 <= i < out@.len() implies !needs_escape(#[trigger] out@[i]) by {
        if i >= old(out)@.len() {
            assert(out@[i] == bytes@[i - old(out)@.len()]);
            if is_number_text(bytes@) {
                assert(is_number_byte(bytes@[i - old(out)@.len()]));
            }
        } else {
            assert(out@[i] == old(out)@[i]);
        }
    }
}

/// The literal of a matrix: `matrix(a b c d e f)`.
pub open spec fn matrix_text(matrix: Matrix) -> Seq<u8> {
    ascii("matrix("@) + matrix.a@ + ascii(" "@) + matrix.b@ + ascii(" "@) + matrix.c@ + ascii(" "@)
        + matrix.d@ + ascii(" "@) + matrix.e@ + ascii(" "@) + matrix.f@ + ascii(")"@)
}

impl Matrix {
    /// The identity, `matrix(1 0 0 1 0 0)`.
    pub fn identity() -> (matrix: Matrix)
        ensures
            matrix.a@ == ascii("1"@),
            matrix.b@ == ascii("0"@),
            matrix.c@ == ascii("0"@),
            matrix.d@ == ascii("1"@),
            matrix.e@ == ascii("0"@),
            matrix.f@ == ascii("0"@),
            matrix_text(matrix) == ascii("matrix(1 0 0 1 0 0)"@),
    {
        proof {
            reveal_strlit("0");
            reveal_strlit("1");
            reveal_strlit("matrix(");
            reveal_strlit(" ");
            reveal_strlit(")");
            reveal_strlit("matrix(1 0 0 1 0 0)");
        }
        let zero = literal("0");
        let one = literal("1");
        assert(is_number_byte(zero@[0]) && is_number_byte(one@[0]));
        let matrix = Matrix {
            a: Coefficient { text: copy(one) },
            b: Coefficient { text: copy(zero) },
            c: Coefficient { text: copy(zero) },
            d: Coefficient { text: copy(one) },
            e: Coefficient { text: copy(zero) },
            f: Coefficient { text: copy(zero) },
        };
        assert(matrix_text(matrix) =~= ascii("matrix(1 0 0 1 0 0)"@));
        matrix
    }

    /// The literal of this matrix. It can stand in an attribute as it is:
    /// none of its bytes has to be escaped.
    pub fn literal(&self) -> (text: Vec<u8>)
        ensures
            text@ == matrix_text(*self),
            forall|i: int| 0 <= i < text@.len() ==> !needs_escape(#[trigger] text@[i]),
    {
        proof {
            reveal_strlit("matrix(");
            reveal_strlit(" ");
            reveal_strlit(")");
        }
        let mut text = copy(literal("matrix("));
        assert(plain(text@));
        append_plain(&mut text, self.a.text());
        append_plain(&mut text, literal(" "));
        append_plain(&mut text, self.b.text());
        append_plain(&mut text, literal(" "));
        append_plain(&mut text, self.c.text());
        append_plain(&mut text, literal(" "));
        append_plain(&mut text, self.d.text());
        append_plain(&mut text, literal(" "));
        append_plain(&mut text, self.e.text());
        append_plain(&mut text, literal(" "));
        append_plain(&mut text, self.f.text());
        append_plain(&mut text, literal(")"));
        assert(text@ =~= matrix_text(*self));
        text
    }
}

/// The attributes of the root tag with the matrix as its transform. A tag
/// with a malformed attribute cannot be rebuilt.
pub open spec fn root_with_transform(literal: Seq<u8>, tag: TokenView) -> Result<
    Seq<AttributeView>,
    SvgError,
> {
    match all_well_formed(tag.attributes) {
        Some(attributes) => Ok(with_attribute(attributes, ascii("transform"@), literal)),
        None => Err(SvgError::XmlParseError),
    }
}

/// The rule that writes the literal of a matrix on the root element: it
/// rebuilds the first start tag of an `svg` element, and no other.
pub open spec fn transform_rule(literal: Seq<u8>) -> Rule {
    Rule {
        targets: |tag: TokenView| tag_name(tag.content) == ascii("svg"@),
        first_only: true,
        rewritten: |tag: TokenView| root_with_transform(literal, tag),
    }
}

/// The pass that carries out [`transform_rule`].
pub struct TransformPass<'a> {
    pub matrix: &'a Matrix,
}

impl<'a> Pass for TransformPass<'a> {
    open spec fn rule(&self) -> Rule {
        transform_rule(matrix_text(*self.matrix))
    }

    fn is_target(&self, tag: &Token) -> (hit: bool) {
        proof {
            reveal_strlit("svg");
        }
        same_bytes(tag.name(), literal("svg"))
    }

    fn stops_after_first(&self) -> (once: bool) {
        true
    }

    fn rewrite(&self, tag: &Token) -> (result: Result<Vec<Attribute>, SvgError>) {
        let attributes = match well_formed_attributes(&tag.attributes) {
            Some(attributes) => attributes,
            None => {
                return Err(SvgError::XmlParseError);
            },
        };
        proof {
            reveal_strlit("transform");
        }
        let value = self.matrix.literal();
        Ok(set_attribute(attributes, literal("transform"), value.as_slice()))
    }
}

/// Writes `matrix_transform` on the root element of the document `svg_content`.
///
/// The first start tag of an `svg` element is rebuilt with the attribute
/// `transform` set to the literal of the matrix, in place of any transform
/// that it had; every other token is written back as it was read. The pass
/// fails with `XmlParseError` where that tag has a malformed attribute and
/// on a malformed document.
pub fn transform_svg(svg_content: &Vec<u8>, matrix_transform: &Matrix) -> (result: Result<
    Vec<u8>,
    SvgError,
>)
    ensures
        match result {
            Ok(document) => rewritten_document(
                transform_rule(matrix_text(*matrix_transform)),
                xml_document(svg_content@),
            ) == Ok::<Seq<u8>, SvgError>(document@),
            Err(error) => rewritten_document(
                transform_rule(matrix_text(*matrix_transform)),
                xml_document(svg_content@),
            ) == Err::<Seq<u8>, SvgError>(error),
        },
{
    let pass = TransformPass { matrix: matrix_transform };
    rewrite(&pass, svg_content.as_slice())
}

/// After the pass the root states the matrix, and nothing else has changed:
/// the first `svg` start tag is rebuilt under its name, the first
/// `transform` among its attributes holds the literal, a tag that had no
/// `transform` has one and a tag that had some has as many as before, and
/// every other token is as it was.
pub proof fn transform_set_on_root(literal: Seq<u8>, tokens: Seq<TokenView>, i: int)
    requires
        rewritten_tokens(transform_rule(literal), tokens) is Ok,
        0 <= i < tokens.len(),
        selected(transform_rule(literal), tokens, i),
    ensures
        ({
            let written = rewritten_tokens(transform_rule(literal), tokens)->Ok_0;
            let key = ascii("transform"@);
            let before = all_well_formed(tokens[i].attributes);
            let after = all_well_formed(written[i].attributes);
            &&& written.len() == tokens.len()
            &&& forall|j: int| 0 <= j < tokens.len() && j != i ==> #[trigger] written[j] == tokens[j]
            &&& written[i].kind == TokenKind::Start
            &&& tag_name(written[i].content) == ascii("svg"@)
            &&& first_with_key(written[i].attributes, key) == Some(
                AttributeView { key, value: literal },
            )
            &&& before is Some
            &&& after is Some
            &&& count_key(after->0, key) == if count_key(before->0, key) == 0 {
                1
            } else {
                count_key(before->0, key)
            }
        }),
{
    let rule = transform_rule(literal);
    let written = rewritten_tokens(rule, tokens)->Ok_0;
    let tag = tokens[i];
    let key = ascii("transform"@);
    rewrite_token_by_token(rule, tokens, tokens.len());
    assert forall|j: int| 0 <= j < tokens.len() && j != i implies #[trigger] written[j]
        == tokens[j] by {
        if j < i {
            assert(!targeted(rule, tokens[j]));
        } else {
            assert(targeted(rule, tokens[i]));
        }
        assert(!selected(rule, tokens, j));
    }
    assert(rewritten_token(rule, tokens, i) == Ok::<TokenView, SvgError>(written[i]));
    assert((rule.rewritten)(tag) == root_with_transform(literal, tag));
    let attributes = all_well_formed(tag.attributes)->0;
    let updated = with_attribute(attributes, key, literal);
    assert(written[i] == start_tag(tag_name(tag.content), updated));
    assert(all_well_formed(written[i].attributes)->0 =~= updated);
    set_attribute_once(attributes, key, literal);
    count_key_positive(updated, key);
    name_len_bounds(tag.content);
    assert forall|j: int| 0 <= j < tag_name(tag.content).len() implies !is_space(
        #[trigger] tag_name(tag.content)[j],
    ) by {
        assert(tag_name(tag.content)[j] == tag.content[j]);
    }
    rebuilt_tag_name(tag_name(tag.content), updated);
    set_attribute_is_found(attributes, key, literal);
}

/// Writing the same matrix once more changes nothing: the pass leaves the
/// tokens that it wrote as they are.
pub proof fn transform_set_twice(literal: Seq<u8>, tokens: Seq<TokenView>)
    requires
        rewritten_tokens(transform_rule(literal), tokens) is Ok,
    ensures
        ({
            let written = rewritten_tokens(transform_rule(literal), tokens)->Ok_0;
            rewritten_tokens(transform_rule(literal), written) == Ok::<Seq<TokenView>, SvgError>(
                written,
            )
        }),
{
    let rule = transform_rule(literal);
    let written = rewritten_tokens(rule, tokens)->Ok_0;
    let key = ascii("transform"@);
    rewrite_token_by_token(rule, tokens, tokens.len());
    assert forall|i: int| 0 <= i < written.len() implies targeted(rule, #[trigger] written[i])
        == targeted(rule, tokens[i]) by {
        if selected(rule, tokens, i) {
            transform_set_on_root(literal, tokens, i);
        } else {
            assert(written[i] == tokens[i]);
        }
    }
    assert forall|i: int| 0 <= i < written.len() implies #[trigger] rewritten_token(
        rule,
        written,
        i,
    ) == Ok::<TokenView, SvgError>(written[i]) by {
        if selected(rule, tokens, i) {
            transform_set_on_root(literal, tokens, i);
            let tag = tokens[i];
            let attributes = all_well_formed(tag.attributes)->0;
            let updated = with_attribute(attributes, key, literal);
            assert(rewritten_token(rule, tokens, i) == Ok::<TokenView, SvgError>(written[i]));
            assert((rule.rewritten)(tag) == root_with_transform(literal, tag));
            assert(written[i] == start_tag(tag_name(tag.content), updated));
            assert(all_well_formed(written[i].attributes)->0 =~= updated);
            set_attribute_twice(attributes, key, literal);
            assert forall|j: int| 0 <= j < i implies !targeted(rule, #[trigger] written[j]) by {
                assert(targeted(rule, written[j]) == targeted(rule, tokens[j]));
            }
            assert(selected(rule, written, i));
            assert((rule.rewritten)(written[i]) == root_with_transform(literal, written[i]));
        } else {
            assert(written[i] == tokens[i]);
            if targeted(rule, written[i]) {
                let j = choose|j: int| 0 <= j < i && targeted(rule, #[trigger] tokens[j]);
                assert(targeted(rule, written[j]) == targeted(rule, tokens[j]));
                assert(!selected(rule, written, i));
            }
        }
    }
    rewrite_fixed(rule, written);
}

} // verus!
