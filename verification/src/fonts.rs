//! Font substitution: `text` elements ask for fonts that a renderer may not
//! have; the families of a fixed table are replaced by generic ones.

use crate::attributes::{all_well_formed, well_formed_attributes};
use crate::bytes::{ascii, copy, literal, same_bytes};
use crate::error::SvgError;
use crate::rewrite::{
    rebuilt_tag_name, rewrite, rewrite_fixed, rewrite_token_by_token, rewritten_document,
    rewritten_token, rewritten_tokens, selected, start_tag, targeted, Pass, Rule,
};
use crate::xml::{
    attribute_list_view, is_space, name_len_bounds, tag_name, xml_document, Attribute,
    AttributeView, Token, TokenView,
};
use vstd::prelude::*;

verus! {

/// The family that stands in for `family`: `sans-serif` for `Helvetica`,
/// and every other family itself.
pub open spec fn substitute(family: Seq<u8>) -> Seq<u8> {
    if family == ascii("Helvetica"@) {
        ascii("sans-serif"@)
    } else {
        family
    }
}

/// The attribute with its value taken as a font family and substituted.
pub open spec fn converted(attribute: AttributeView) -> AttributeView {
    AttributeView { key: attribute.key, value: substitute(attribute.value) }
}

/// Replaces the font family that `attr` holds as its value.
pub fn convert_font(attr: Attribute) -> (out: Attribute)
    ensures
        out@ == converted(attr@),
{
    proof {
        reveal_strlit("Helvetica");
        reveal_strlit("sans-serif");
    }
    if same_bytes(attr.value.as_slice(), literal("Helvetica")) {
        Attribute { key: attr.key, value: copy(literal("sans-serif")) }
    } else {
        attr
    }
}

/// The attribute as the pass leaves it: `font-family` with its family
/// substituted, any other attribute as it is.
pub open spec fn with_font(attribute: AttributeView) -> AttributeView {
    if attribute.key == ascii("font-family"@) {
        converted(attribute)
    } else {
        attribute
    }
}

/// The attributes of a `text` tag after substitution. A tag with a
/// malformed attribute cannot be rebuilt.
pub open spec fn text_with_fonts(tag: TokenView) -> Result<Seq<AttributeView>, SvgError> {
    match all_well_formed(tag.attributes) {
        Some(attributes) => Ok(Seq::new(attributes.len(), |i: int| with_font(attributes[i]))),
        None => Err(SvgError::XmlParseError),
    }
}

/// The rule that substitutes fonts: it rebuilds the start tag of each
/// `text` element.
pub open spec fn font_rule() -> Rule {
    Rule {
        targets: |tag: TokenView| tag_name(tag.content) == ascii("text"@),
        first_only: false,
        rewritten: |tag: TokenView| text_with_fonts(tag),
    }
}

/// The pass that carries out [`font_rule`].
pub struct FontPass;

impl Pass for FontPass {
    open spec fn rule(&self) -> Rule {
        font_rule()
    }

    fn is_target(&self, tag: &Token) -> (hit: bool) {
        proof {
            reveal_strlit("text");
        }
        same_bytes(tag.name(), literal("text"))
    }

    fn stops_after_first(&self) -> (once: bool) {
        false
    }

    fn rewrite(&self, tag: &Token) -> (result: Result<Vec<Attribute>, SvgError>) {
        let attributes = match well_formed_attributes(&tag.attributes) {
            Some(attributes) => attributes,
            None => {
                return Err(SvgError::XmlParseError);
            },
        };
        let ghost all = attribute_list_view(attributes@);
        let mut out: Vec<Attribute> = Vec::new();
        let mut i: usize = 0;
        while i < attributes.len()
            invariant
                i <= attributes@.len(),
                all == attribute_list_view(attributes@),
                out@.len() == i,
                forall|j: int| 0 <= j < i ==> (#[trigger] out@[j])@ == with_font(all[j]),
            decreases attributes@.len() - i,
        {
            proof {
                reveal_strlit("font-family");
            }
            let attribute = attributes[i].duplicate();
            assert(attribute@ == all[i as int]);
            if same_bytes(attribute.key.as_slice(), literal("font-family")) {
                out.push(convert_font(attribute));
            } else {
                out.push(attribute);
            }
            i += 1;
        }
        proof {
            assert(attribute_list_view(out@) =~= Seq::new(all.len(), |i: int| with_font(all[i])));
        }
        Ok(out)
    }
}

/// Substitutes the fonts of the document `svg_content`.
///
/// Each start tag of a `text` element is rebuilt with the family of its
/// `font-family` attributes substituted; every other token is written back
/// as it was read. The pass fails with `XmlParseError` at a `text` tag with
/// a malformed attribute and on a malformed document.
pub fn replace_fonts(svg_content: Vec<u8>) -> (result: Result<Vec<u8>, SvgError>)
    ensures
        match result {
            Ok(document) => rewritten_document(font_rule(), xml_document(svg_content@)) == Ok::<
                Seq<u8>,
                SvgError,
            >(document@),
            Err(error) => rewritten_document(font_rule(), xml_document(svg_content@)) == Err::<
                Seq<u8>,
                SvgError,
            >(error),
        },
{
    rewrite(&FontPass, svg_content.as_slice())
}

/// Substitution changes the value of a `font-family` that asks for
/// `Helvetica`, and nothing else: the rebuilt tag has the attributes of the
/// old one, in their order and under their keys, and each value is as it
/// was unless it is replaced by `sans-serif`.
pub proof fn only_helvetica_changes(tag: TokenView, i: int)
    requires
        all_well_formed(tag.attributes) is Some,
        0 <= i < tag.attributes.len(),
    ensures
        ({
            let before = all_well_formed(tag.attributes)->0;
            let after = text_with_fonts(tag);
            &&& after is Ok
            &&& after->Ok_0.len() == before.len()
            &&& after->Ok_0[i].key == before[i].key
            &&& if before[i].key == ascii("font-family"@) && before[i].value == ascii(
                "Helvetica"@,
            ) {
                after->Ok_0[i].value == ascii("sans-serif"@)
            } else {
                after->Ok_0[i].value == before[i].value
            }
        }),
{
}

/// Substituting once more changes nothing: the pass leaves the tokens that
/// it wrote as they are.
pub proof fn fonts_substituted_twice(tokens: Seq<TokenView>)
    requires
        rewritten_tokens(font_rule(), tokens) is Ok,
    ensures
        ({
            let written = rewritten_tokens(font_rule(), tokens)->Ok_0;
            rewritten_tokens(font_rule(), written) == Ok::<Seq<TokenView>, SvgError>(written)
        }),
{
    let rule = font_rule();
    let written = rewritten_tokens(rule, tokens)->Ok_0;
    reveal_strlit("Helvetica");
    reveal_strlit("sans-serif");
    assert(ascii("Helvetica"@).len() == 9);
    assert(ascii("sans-serif"@).len() == 10);
    rewrite_token_by_token(rule, tokens, tokens.len());
    assert forall|i: int| 0 <= i < written.len() implies #[trigger] rewritten_token(
        rule,
        written,
        i,
    ) == Ok::<TokenView, SvgError>(written[i]) by {
        if targeted(rule, tokens[i]) {
            let tag = tokens[i];
            let name = tag_name(tag.content);
            assert(selected(rule, tokens, i));
            assert(rewritten_token(rule, tokens, i) == Ok::<TokenView, SvgError>(written[i]));
            assert((rule.rewritten)(tag) == text_with_fonts(tag));
            let attributes = all_well_formed(tag.attributes)->0;
            let updated = text_with_fonts(tag)->Ok_0;
            assert(written[i] == start_tag(name, updated));
            assert(all_well_formed(written[i].attributes)->0 =~= updated);
            name_len_bounds(tag.content);
            assert forall|j: int| 0 <= j < name.len() implies !is_space(#[trigger] name[j]) by {
                assert(name[j] == tag.content[j]);
            }
            rebuilt_tag_name(name, updated);
            assert(selected(rule, written, i));
            assert((rule.rewritten)(written[i]) == text_with_fonts(written[i]));
            assert(text_with_fonts(written[i])->Ok_0 =~= updated);
        } else {
            assert(!selected(rule, tokens, i));
            assert(written[i] == tokens[i]);
        }
    }
    rewrite_fixed(rule, written);
}

} // verus!
