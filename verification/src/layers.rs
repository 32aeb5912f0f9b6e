//! Layers: the groups of a document that a drawing tool marked as layers,
//! their names, and their visibility.

use crate::attributes::{
    all_well_formed, count_key, count_key_positive, find_attribute, first_with_key, set_attribute,
    set_attribute_is_found, set_attribute_keeps_others, set_attribute_keeps_places,
    set_attribute_once, set_attribute_twice, well_formed_attributes, with_attribute,
};
use crate::bytes::{ascii, literal, same_bytes, utf8_text};
use crate::error::SvgError;
use crate::rewrite::{
    rebuilt_tag_name, rewrite, rewrite_fails_at, rewrite_first_failure, rewrite_fixed,
    rewrite_token_by_token,
    rewritten_document, rewritten_token, rewritten_tokens, selected, start_tag, targeted, Pass, Rule,
};
use crate::xml::{
    attributes_view, is_space, name_len_bounds, read_tokens, tag_name, tokens_view, well_formed,
    xml_document, Attribute, AttributeView, Token, TokenKind, TokenStream, TokenStreamView,
    TokenView,
};
use vstd::prelude::*;
use vstd::utf8::*;

verus! {

/// Whether the entry is the attribute that marks a group as a layer:
/// `inkscape:groupmode` with the value `layer`.
pub open spec fn marks_layer(entry: Option<AttributeView>) -> bool {
    entry matches Some(attribute) && attribute.key == ascii("inkscape:groupmode"@)
        && attribute.value == ascii("layer"@)
}

/// Whether a tag is marked as a layer. Malformed attributes are passed over.
pub open spec fn is_layer_tag(tag: TokenView) -> bool {
    exists|i: int| 0 <= i < tag.attributes.len() && marks_layer(#[trigger] tag.attributes[i])
}

/// Whether a token is the start tag of a group, `g`.
pub open spec fn is_group(token: TokenView) -> bool {
    token.kind == TokenKind::Start && tag_name(token.content) == ascii("g"@)
}

/// Whether `group` is marked as a layer.
pub fn is_layer(group: &Token) -> (marked: bool)
    ensures
        marked == is_layer_tag(group@),
{
    let ghost all = group@.attributes;
    let mut i: usize = 0;
    while i < group.attributes.len()
        invariant
            i <= group.attributes@.len(),
            all == attributes_view(group.attributes@),
            forall|j: int| 0 <= j < i ==> !marks_layer(#[trigger] all[j]),
        decreases group.attributes@.len() - i,
    {
        proof {
            reveal_strlit("inkscape:groupmode");
            reveal_strlit("layer");
        }
        match &group.attributes[i] {
            Some(attribute) => {
                if same_bytes(attribute.key.as_slice(), literal("inkscape:groupmode"))
                    && same_bytes(attribute.value.as_slice(), literal("layer")) {
                    assert(all[i as int] == Some(attribute@));
                    assert(marks_layer(group@.attributes[i as int]));
                    return true;
                }
            },
            None => {},
        }
        i += 1;
    }
    false
}

/// The entity `&quot;`, which stands for a double quote.
pub open spec fn quote_entity() -> Seq<u8> {
    seq![0x26u8, 0x71u8, 0x75u8, 0x6fu8, 0x74u8, 0x3bu8]
}

/// `text` with a double quote in place of each `&quot;`, taken from left to right.
pub open spec fn unquoted(text: Seq<u8>) -> Seq<u8>
    decreases text.len(),
{
    if text.len() == 0 {
        Seq::empty()
    } else if text.len() >= 6 && text.take(6) == quote_entity() {
        seq![0x22u8] + unquoted(text.skip(6))
    } else {
        seq![text[0]] + unquoted(text.drop_first())
    }
}

/// Puts a double quote in place of each `&quot;` in `text`.
pub fn unquote(text: &[u8]) -> (out: Vec<u8>)
    ensures
        out@ == unquoted(text@),
{
    let mut out: Vec<u8> = Vec::new();
    let mut i: usize = 0;
    assert(text@.skip(0) =~= text@);
    while i < text.len()
        invariant
            i <= text@.len(),
            out@ + unquoted(text@.skip(i as int)) == unquoted(text@),
        decreases text@.len() - i,
    {
        let ghost rest = text@.skip(i as int);
        let ghost before = out@;
        if text.len() - i >= 6 && text[i] == 0x26 && text[i + 1] == 0x71 && text[i + 2] == 0x75
            && text[i + 3] == 0x6f && text[i + 4] == 0x74 && text[i + 5] == 0x3b {
            assert(rest.take(6) =~= quote_entity());
            assert(rest.skip(6) =~= text@.skip(i + 6));
            out.push(0x22);
            assert(out@ + unquoted(text@.skip(i + 6)) =~= before + unquoted(rest));
            i += 6;
        } else {
            assert(!(rest.len() >= 6 && rest.take(6) == quote_entity())) by {
                if rest.len() >= 6 && rest.take(6) == quote_entity() {
                    assert(rest.take(6)[0] == 0x26u8);
                    assert(rest.take(6)[1] == 0x71u8);
                    assert(rest.take(6)[2] == 0x75u8);
                    assert(rest.take(6)[3] == 0x6fu8);
                    assert(rest.take(6)[4] == 0x74u8);
                    assert(rest.take(6)[5] == 0x3bu8);
                }
            }
            assert(rest.drop_first() =~= text@.skip(i + 1));
            out.push(text[i]);
            assert(out@ + unquoted(text@.skip(i + 1)) =~= before + unquoted(rest));
            i += 1;
        }
    }
    assert(out@ + Seq::<u8>::empty() =~= out@);
    out
}

/// The text of a label: the value with its quote entities resolved, read as
/// UTF-8, where that can be done.
pub open spec fn label_text(value: Seq<u8>) -> Option<Seq<char>> {
    if valid_utf8(unquoted(value)) {
        Some(decode_utf8(unquoted(value)))
    } else {
        None
    }
}

/// The name of a layer: the text of the first `inkscape:label` among the
/// well-formed attributes of its tag.
pub open spec fn layer_name(tag: TokenView) -> Option<Seq<char>> {
    match first_with_key(tag.attributes, ascii("inkscape:label"@)) {
        Some(label) => label_text(label.value),
        None => None,
    }
}

/// The name of the layer that `event` starts, if its tag carries a label
/// that can be read as text.
pub fn extract_layer_name(event: &Token) -> (name: Option<String>)
    ensures
        match name {
            Some(text) => layer_name(event@) == Some(text@),
            None => layer_name(event@) is None,
        },
{
    proof {
        reveal_strlit("inkscape:label");
    }
    match find_attribute(&event.attributes, literal("inkscape:label")) {
        Some(label) => utf8_text(unquote(label.value.as_slice())),
        None => None,
    }
}

/// The tags marked as layers among `tags`, in their order.
pub open spec fn layer_tags(tags: Seq<TokenView>) -> Seq<TokenView>
    decreases tags.len(),
{
    if tags.len() == 0 {
        Seq::empty()
    } else if is_layer_tag(tags.last()) {
        layer_tags(tags.drop_last()).push(tags.last())
    } else {
        layer_tags(tags.drop_last())
    }
}

/// Keeps the groups that are marked as layers.
pub fn get_layers_from_groups(groups: Vec<Token>) -> (layers: Vec<Token>)
    ensures
        tokens_view(layers@) == layer_tags(tokens_view(groups@)),
{
    let ghost all = tokens_view(groups@);
    let mut layers: Vec<Token> = Vec::new();
    let mut i: usize = 0;
    assert(tokens_view(layers@) =~= Seq::empty());
    while i < groups.len()
        invariant
            i <= groups@.len(),
            all == tokens_view(groups@),
            tokens_view(layers@) == layer_tags(all.take(i as int)),
        decreases groups@.len() - i,
    {
        let ghost before = tokens_view(layers@);
        proof {
            assert(all.take(i + 1).drop_last() =~= all.take(i as int));
            assert(all.take(i + 1).last() == groups@[i as int]@);
        }
        if is_layer(&groups[i]) {
            layers.push(groups[i].duplicate());
            assert(tokens_view(layers@) =~= before.push(groups@[i as int]@));
        }
        i += 1;
    }
    assert(all.take(groups@.len() as int) =~= all);
    layers
}

/// The start tags of groups among `tokens`, in their order.
pub open spec fn group_tags(tokens: Seq<TokenView>) -> Seq<TokenView>
    decreases tokens.len(),
{
    if tokens.len() == 0 {
        Seq::empty()
    } else if is_group(tokens.last()) {
        group_tags(tokens.drop_last()).push(tokens.last())
    } else {
        group_tags(tokens.drop_last())
    }
}

/// Collects the start tags of groups.
pub fn get_groups(tokens: &Vec<Token>) -> (groups: Vec<Token>)
    ensures
        tokens_view(groups@) == group_tags(tokens_view(tokens@)),
{
    let ghost all = tokens_view(tokens@);
    let mut groups: Vec<Token> = Vec::new();
    let mut i: usize = 0;
    assert(tokens_view(groups@) =~= Seq::empty());
    while i < tokens.len()
        invariant
            i <= tokens@.len(),
            all == tokens_view(tokens@),
            tokens_view(groups@) == group_tags(all.take(i as int)),
        decreases tokens@.len() - i,
    {
        let ghost before = tokens_view(groups@);
        proof {
            assert(all.take(i + 1).drop_last() =~= all.take(i as int));
            assert(all.take(i + 1).last() == tokens@[i as int]@);
            reveal_strlit("g");
        }
        let token = &tokens[i];
        let named_group = match token.kind {
            TokenKind::Start => same_bytes(token.name(), literal("g")),
            _ => false,
        };
        if named_group {
            groups.push(token.duplicate());
            assert(tokens_view(groups@) =~= before.push(tokens@[i as int]@));
        }
        i += 1;
    }
    assert(all.take(tokens@.len() as int) =~= all);
    groups
}

/// The names of `layers`, in their order, where each of them has one.
pub open spec fn layer_names(layers: Seq<TokenView>) -> Result<Seq<Seq<char>>, SvgError> {
    if forall|i: int| 0 <= i < layers.len() ==> layer_name(#[trigger] layers[i]) is Some {
        Ok(Seq::new(layers.len(), |i: int| layer_name(layers[i])->0))
    } else {
        Err(SvgError::MissingLayerName)
    }
}

/// The layers of a document: the names of its groups marked as layers, in
/// the order of the document and with each occurrence of a name that occurs
/// twice. A malformed document has none, and neither has one with a layer
/// that lacks a name.
pub open spec fn document_layers(document: TokenStreamView) -> Result<Seq<Seq<char>>, SvgError> {
    if document.complete {
        layer_names(layer_tags(group_tags(document.tokens)))
    } else {
        Err(SvgError::XmlParseError)
    }
}

/// The texts of a list of names, entry by entry.
pub open spec fn names_view(names: Seq<String>) -> Seq<Seq<char>> {
    Seq::new(names.len(), |i: int| names[i]@)
}

/// The layers of a document that was read into tokens.
pub fn stream_layers(stream: &TokenStream) -> (result: Result<Vec<String>, SvgError>)
    ensures
        match result {
            Ok(names) => document_layers(stream@) == Ok::<Seq<Seq<char>>, SvgError>(
                names_view(names@),
            ),
            Err(error) => document_layers(stream@) == Err::<Seq<Seq<char>>, SvgError>(error),
        },
{
    if !stream.complete {
        return Err(SvgError::XmlParseError);
    }
    let layers = get_layers_from_groups(get_groups(&stream.tokens));
    let ghost all = tokens_view(layers@);
    let mut names: Vec<String> = Vec::new();
    let mut i: usize = 0;
    while i < layers.len()
        invariant
            i <= layers@.len(),
            all == tokens_view(layers@),
            stream.complete,
            all == layer_tags(group_tags(stream@.tokens)),
            names@.len() == i,
            forall|j: int| 0 <= j < i ==> layer_name(#[trigger] all[j]) == Some(names@[j]@),
        decreases layers@.len() - i,
    {
        assert(all[i as int] == layers@[i as int]@);
        match extract_layer_name(&layers[i]) {
            Some(name) => {
                names.push(name);
            },
            None => {
                assert(layer_name(all[i as int]) is None);
                return Err(SvgError::MissingLayerName);
            },
        }
        i += 1;
    }
    proof {
        assert(names_view(names@) =~= Seq::new(all.len(), |i: int| layer_name(all[i])->0));
    }
    Ok(names)
}

/// The layers of the document `svg_content`.
///
/// The result holds the name of every group marked as a layer, in the order
/// of the document. It is `XmlParseError` for a malformed document and
/// `MissingLayerName` where a layer has no label that can be read as text.
pub fn get_layers(svg_content: &Vec<u8>) -> (result: Result<Vec<String>, SvgError>)
    ensures
        match result {
            Ok(names) => document_layers(xml_document(svg_content@)) == Ok::<
                Seq<Seq<char>>,
                SvgError,
            >(names_view(names@)),
            Err(error) => document_layers(xml_document(svg_content@)) == Err::<
                Seq<Seq<char>>,
                SvgError,
            >(error),
        },
{
    let stream = read_tokens(svg_content.as_slice());
    stream_layers(&stream)
}

/// The caller's list of layers, each name as its text.
pub open spec fn layers_view(layers: Seq<(String, bool)>) -> Seq<(Seq<char>, bool)> {
    Seq::new(layers.len(), |i: int| (layers[i].0@, layers[i].1))
}

/// Whether the layer `name` is to be visible: what the first entry with
/// that name says, if there is one.
pub open spec fn visibility_of(layers: Seq<(Seq<char>, bool)>, name: Seq<char>) -> Option<bool>
    decreases layers.len(),
{
    if layers.len() == 0 {
        None
    } else if layers[0].0 == name {
        Some(layers[0].1)
    } else {
        visibility_of(layers.drop_first(), name)
    }
}

/// Looks `name` up in the caller's list of layers.
pub fn find_layer(layers: &Vec<(String, bool)>, name: &String) -> (visible: Option<bool>)
    ensures
        visible == visibility_of(layers_view(layers@), name@),
{
    let ghost all = layers_view(layers@);
    let mut i: usize = 0;
    assert(all.skip(0) =~= all);
    while i < layers.len()
        invariant
            i <= layers@.len(),
            all == layers_view(layers@),
            visibility_of(all, name@) == visibility_of(all.skip(i as int), name@),
        decreases layers@.len() - i,
    {
        let entry = &layers[i];
        assert(all.skip(i as int)[0] == (entry.0@, entry.1));
        if entry.0 == *name {
            return Some(entry.1);
        }
        assert(all.skip(i as int).drop_first() =~= all.skip(i + 1));
        i += 1;
    }
    None
}

/// The value of the attribute `visibility`: `visible` or `hidden`.
pub open spec fn visibility_value(visible: bool) -> Seq<u8> {
    if visible {
        ascii("visible"@)
    } else {
        ascii("hidden"@)
    }
}

/// The attributes of a layer's tag once its visibility is set from `layers`.
///
/// The layer must have a name, `layers` an entry for that name, and the tag
/// no malformed attribute; the failures are looked for in this order. With
/// an empty list every layer is unknown, named or not.
pub open spec fn layer_with_visibility(layers: Seq<(Seq<char>, bool)>, tag: TokenView) -> Result<
    Seq<AttributeView>,
    SvgError,
> {
    if layers.len() == 0 {
        Err(SvgError::UnknownLayer)
    } else {
        match layer_name(tag) {
            None => Err(SvgError::MissingLayerName),
            Some(name) => match visibility_of(layers, name) {
                None => Err(SvgError::UnknownLayer),
                Some(visible) => match all_well_formed(tag.attributes) {
                    None => Err(SvgError::XmlParseError),
                    Some(attributes) => Ok(
                        with_attribute(
                            attributes,
                            ascii("visibility"@),
                            visibility_value(visible),
                        ),
                    ),
                },
            },
        }
    }
}

/// The rule that sets the visibility of every layer from a list of layers:
/// it rebuilds the start tag of each group marked as a layer.
pub open spec fn visibility_rule(layers: Seq<(Seq<char>, bool)>) -> Rule {
    Rule {
        targets: |tag: TokenView| tag_name(tag.content) == ascii("g"@) && is_layer_tag(tag),
        first_only: false,
        rewritten: |tag: TokenView| layer_with_visibility(layers, tag),
    }
}

/// The pass that carries out [`visibility_rule`].
pub struct VisibilityPass<'a> {
    pub layers: &'a Vec<(String, bool)>,
}

impl<'a> Pass for VisibilityPass<'a> {
    open spec fn rule(&self) -> Rule {
        visibility_rule(layers_view(self.layers@))
    }

    fn is_target(&self, tag: &Token) -> (hit: bool) {
        proof {
            reveal_strlit("g");
        }
        same_bytes(tag.name(), literal("g")) && is_layer(tag)
    }

    fn stops_after_first(&self) -> (once: bool) {
        false
    }

    fn rewrite(&self, tag: &Token) -> (result: Result<Vec<Attribute>, SvgError>) {
        if self.layers.len() == 0 {
            return Err(SvgError::UnknownLayer);
        }
        let name = match extract_layer_name(tag) {
            Some(name) => name,
            None => {
                return Err(SvgError::MissingLayerName);
            },
        };
        let visible = match find_layer(self.layers, &name) {
            Some(visible) => visible,
            None => {
                return Err(SvgError::UnknownLayer);
            },
        };
        let attributes = match well_formed_attributes(&tag.attributes) {
            Some(attributes) => attributes,
            None => {
                return Err(SvgError::XmlParseError);
            },
        };
        proof {
            reveal_strlit("visibility");
            reveal_strlit("visible");
            reveal_strlit("hidden");
        }
        let value = if visible {
            literal("visible")
        } else {
            literal("hidden")
        };
        Ok(set_attribute(attributes, literal("visibility"), value))
    }
}

/// Sets the visibility of every layer of the document `svg_content`.
///
/// Each start tag of a group marked as a layer is rebuilt with the
/// attribute `visibility` set to `visible` or `hidden`, as the first entry
/// of `layers` with the layer's name says; every other token is written
/// back as it was read. The pass fails at the first layer, in the order of
/// the document, that has no name (`MissingLayerName`), no entry in
/// `layers` (`UnknownLayer`) or a malformed attribute (`XmlParseError`), and
/// with `XmlParseError` on a malformed document.
pub fn set_visible_layers(svg_content: &Vec<u8>, layers: &Vec<(String, bool)>) -> (result: Result<
    Vec<u8>,
    SvgError,
>)
    ensures
        match result {
            Ok(document) => rewritten_document(
                visibility_rule(layers_view(layers@)),
                xml_document(svg_content@),
            ) == Ok::<Seq<u8>, SvgError>(document@),
            Err(error) => rewritten_document(
                visibility_rule(layers_view(layers@)),
                xml_document(svg_content@),
            ) == Err::<Seq<u8>, SvgError>(error),
        },
{
    let pass = VisibilityPass { layers };
    rewrite(&pass, svg_content.as_slice())
}

/// The visibility that a tag states: what the first `visibility` among its
/// well-formed attributes says, where it says `visible` or `hidden`.
pub open spec fn stated_visibility(tag: TokenView) -> Option<bool> {
    match first_with_key(tag.attributes, ascii("visibility"@)) {
        Some(attribute) => if attribute.value == ascii("visible"@) {
            Some(true)
        } else if attribute.value == ascii("hidden"@) {
            Some(false)
        } else {
            None
        },
        None => None,
    }
}

/// Whether a token starts a layer: it is the start tag of a group that is
/// marked as a layer.
pub open spec fn is_layer_group(token: TokenView) -> bool {
    is_group(token) && is_layer_tag(token)
}

/// Setting the visibility of the layers and reading it back gives the list
/// that was set: where the pass succeeds, each layer of the document is
/// still a layer with the name it had, and its tag states the visibility
/// that the list gives for that name. The attribute is never doubled: a tag
/// that had no `visibility` has one, a tag that had some has as many as before.
pub proof fn visibility_round_trip(layers: Seq<(Seq<char>, bool)>, tokens: Seq<TokenView>, i: int)
    requires
        rewritten_tokens(visibility_rule(layers), tokens) is Ok,
        0 <= i < tokens.len(),
        is_layer_group(tokens[i]),
    ensures
        ({
            let written = rewritten_tokens(visibility_rule(layers), tokens)->Ok_0;
            &&& written.len() == tokens.len()
            &&& is_layer_group(written[i])
            &&& layer_name(tokens[i]) is Some
            &&& layer_name(written[i]) == layer_name(tokens[i])
            &&& stated_visibility(written[i]) is Some
            &&& stated_visibility(written[i]) == visibility_of(layers, layer_name(tokens[i])->0)
            &&& all_well_formed(tokens[i].attributes) is Some
            &&& all_well_formed(written[i].attributes) is Some
            &&& count_key(all_well_formed(written[i].attributes)->0, ascii("visibility"@))
                == if count_key(all_well_formed(tokens[i].attributes)->0, ascii("visibility"@))
                == 0 {
                1
            } else {
                count_key(all_well_formed(tokens[i].attributes)->0, ascii("visibility"@))
            }
        }),
{
    let rule = visibility_rule(layers);
    let written = rewritten_tokens(rule, tokens)->Ok_0;
    let tag = tokens[i];
    rewrite_token_by_token(rule, tokens, tokens.len());
    assert(targeted(rule, tag));
    assert(selected(rule, tokens, i));
    assert(rewritten_token(rule, tokens, i) == Ok::<TokenView, SvgError>(written[i]));
    assert((rule.rewritten)(tag) == layer_with_visibility(layers, tag));
    let name = layer_name(tag)->0;
    let visible = visibility_of(layers, name)->0;
    let attributes = all_well_formed(tag.attributes)->0;
    let key = ascii("visibility"@);
    let value = visibility_value(visible);
    let updated = with_attribute(attributes, key, value);
    assert(written[i] == start_tag(tag_name(tag.content), updated));
    assert(tag.attributes =~= well_formed(attributes));
    assert(all_well_formed(written[i].attributes)->0 =~= updated);

    reveal_strlit("visibility");
    reveal_strlit("visible");
    reveal_strlit("hidden");
    reveal_strlit("inkscape:groupmode");
    reveal_strlit("inkscape:label");
    assert(key.len() == 10);
    assert(ascii("inkscape:groupmode"@).len() == 18);
    assert(ascii("inkscape:label"@).len() == 14);
    assert(ascii("visible"@).len() == 7);
    assert(ascii("hidden"@).len() == 6);

    // The rebuilt tag is a group.
    set_attribute_once(attributes, key, value);
    count_key_positive(updated, key);
    name_len_bounds(tag.content);
    assert forall|j: int| 0 <= j < tag_name(tag.content).len() implies !is_space(
        #[trigger] tag_name(tag.content)[j],
    ) by {
        assert(tag_name(tag.content)[j] == tag.content[j]);
    }
    rebuilt_tag_name(tag_name(tag.content), updated);

    // It is still marked as a layer.
    let k = choose|k: int| 0 <= k < tag.attributes.len() && marks_layer(#[trigger] tag.attributes[k]);
    assert(tag.attributes[k] == Some(attributes[k]));
    set_attribute_keeps_places(attributes, key, value, k);
    assert(written[i].attributes[k] == Some(updated[k]));
    assert(marks_layer(written[i].attributes[k]));

    // It has the name it had, and states the visibility that was set.
    set_attribute_keeps_others(attributes, key, value, ascii("inkscape:label"@));
    set_attribute_is_found(attributes, key, value);
}

/// Setting the same visibility once more changes nothing: the pass leaves
/// the tokens that it wrote as they are.
pub proof fn visibility_set_twice(layers: Seq<(Seq<char>, bool)>, tokens: Seq<TokenView>)
    requires
        rewritten_tokens(visibility_rule(layers), tokens) is Ok,
    ensures
        ({
            let written = rewritten_tokens(visibility_rule(layers), tokens)->Ok_0;
            rewritten_tokens(visibility_rule(layers), written) == Ok::<Seq<TokenView>, SvgError>(
                written,
            )
        }),
{
    let rule = visibility_rule(layers);
    let written = rewritten_tokens(rule, tokens)->Ok_0;
    rewrite_token_by_token(rule, tokens, tokens.len());
    assert forall|i: int| 0 <= i < written.len() implies #[trigger] rewritten_token(
        rule,
        written,
        i,
    ) == Ok::<TokenView, SvgError>(written[i]) by {
        if targeted(rule, tokens[i]) {
            assert(selected(rule, tokens, i));
            visibility_round_trip(layers, tokens, i);
            let tag = tokens[i];
            let attributes = all_well_formed(tag.attributes)->0;
            let key = ascii("visibility"@);
            let name = layer_name(tag)->0;
            let value = visibility_value(visibility_of(layers, name)->0);
            let updated = with_attribute(attributes, key, value);
            assert(rewritten_token(rule, tokens, i) == Ok::<TokenView, SvgError>(written[i]));
            assert((rule.rewritten)(tag) == layer_with_visibility(layers, tag));
            assert(written[i] == start_tag(tag_name(tag.content), updated));
            assert(all_well_formed(written[i].attributes)->0 =~= updated);
            set_attribute_twice(attributes, key, value);
            assert(targeted(rule, written[i]));
            assert(selected(rule, written, i));
            assert((rule.rewritten)(written[i]) == layer_with_visibility(layers, written[i]));
            set_attribute_once(attributes, key, value);
            count_key_positive(updated, key);
            name_len_bounds(tag.content);
            assert forall|j: int| 0 <= j < tag_name(tag.content).len() implies !is_space(
                #[trigger] tag_name(tag.content)[j],
            ) by {
                assert(tag_name(tag.content)[j] == tag.content[j]);
            }
            rebuilt_tag_name(tag_name(tag.content), updated);
        } else {
            assert(!selected(rule, tokens, i));
            assert(written[i] == tokens[i]);
            assert(!targeted(rule, written[i]));
        }
    }
    rewrite_fixed(rule, written);
}

/// A list that lacks a layer of the document cannot be set: the pass fails
/// where a layer has a name for which the list has no entry.
pub proof fn unlisted_layer_fails(layers: Seq<(Seq<char>, bool)>, tokens: Seq<TokenView>, i: int)
    requires
        0 <= i < tokens.len(),
        is_layer_group(tokens[i]),
        layer_name(tokens[i]) is Some,
        visibility_of(layers, layer_name(tokens[i])->0) is None,
    ensures
        rewritten_tokens(visibility_rule(layers), tokens) is Err,
        (forall|j: int| 0 <= j < i ==> !is_layer_group(#[trigger] tokens[j]))
            ==> rewritten_tokens(visibility_rule(layers), tokens) == Err::<
            Seq<TokenView>,
            SvgError,
        >(SvgError::UnknownLayer),
{
    let rule = visibility_rule(layers);
    assert(targeted(rule, tokens[i]));
    assert(selected(rule, tokens, i));
    assert((rule.rewritten)(tokens[i]) == layer_with_visibility(layers, tokens[i]));
    assert(rewritten_token(rule, tokens, i) == Err::<TokenView, SvgError>(SvgError::UnknownLayer));
    rewrite_fails_at(rule, tokens, i);
    if forall|j: int| 0 <= j < i ==> !is_layer_group(#[trigger] tokens[j]) {
        assert forall|j: int| 0 <= j < i implies !targeted(rule, #[trigger] tokens[j]) by {
            assert(!is_layer_group(tokens[j]));
        }
        rewrite_first_failure(rule, tokens, i);
    }
}

} // verus!
