//! The stream rewriter: one pass over a document that rebuilds the start tags
//! a pass asks for and copies every other token as it was read.

use crate::bytes::{append, ascii, copy, literal};
use crate::error::SvgError;
use crate::xml::{
    attribute_list_view, attributes_view, document_text, is_space, name_len_is, read_tokens,
    render, tag_name, tokens_view, well_formed, xml_document, Attribute, AttributeView, Token,
    TokenKind, TokenStream, TokenStreamView, TokenView,
};
use vstd::prelude::*;

verus! {

/// What a pass does to a document: which start tags it rebuilds, and with
/// which attributes.
pub struct Rule {
    /// Whether the pass rebuilds a start tag like this one.
    pub targets: spec_fn(TokenView) -> bool,
    /// Whether the pass rebuilds only the first start tag that it targets.
    pub first_only: bool,
    /// The attributes of the rebuilt tag, or the failure that ends the pass.
    pub rewritten: spec_fn(TokenView) -> Result<Seq<AttributeView>, SvgError>,
}

/// A pass: the code that carries out a rule, tag by tag.
pub trait Pass {
    /// The rule that the pass carries out.
    spec fn rule(&self) -> Rule;

    /// Whether the pass rebuilds a start tag like `tag`.
    fn is_target(&self, tag: &Token) -> (hit: bool)
        ensures
            hit == (self.rule().targets)(tag@),
    ;

    /// Whether the pass rebuilds only the first start tag that it targets.
    fn stops_after_first(&self) -> (once: bool)
        ensures
            once == self.rule().first_only,
    ;

    /// The attributes of the tag that takes the place of `tag`, or the
    /// failure that ends the pass.
    fn rewrite(&self, tag: &Token) -> (result: Result<Vec<Attribute>, SvgError>)
        ensures
            match result {
                Ok(attributes) => (self.rule().rewritten)(tag@) == Ok::<
                    Seq<AttributeView>,
                    SvgError,
                >(attribute_list_view(attributes@)),
                Err(error) => (self.rule().rewritten)(tag@) == Err::<Seq<AttributeView>, SvgError>(
                    error,
                ),
            },
    ;
}

/// One attribute as it is written in a rebuilt tag: a space, the key, `="`,
/// the value and `"`. These are the bytes that
/// `quick_xml::events::BytesStart::push_attribute` appends for an attribute
/// given as bytes; the value is not escaped.
pub open spec fn attribute_text(attribute: AttributeView) -> Seq<u8> {
    ascii(" "@) + attribute.key + ascii("=\""@) + attribute.value + ascii("\""@)
}

/// A list of attributes as it is written in a rebuilt tag.
pub open spec fn attributes_text(attributes: Seq<AttributeView>) -> Seq<u8>
    decreases attributes.len(),
{
    if attributes.len() == 0 {
        Seq::empty()
    } else {
        attributes_text(attributes.drop_last()) + attribute_text(attributes.last())
    }
}

/// The start tag with this name and these attributes.
pub open spec fn start_tag(name: Seq<u8>, attributes: Seq<AttributeView>) -> TokenView {
    TokenView {
        kind: TokenKind::Start,
        content: name + attributes_text(attributes),
        attributes: well_formed(attributes),
    }
}

/// Builds the start tag with this name and these attributes.
pub fn build_start_tag(name: &[u8], attributes: &Vec<Attribute>) -> (tag: Token)
    ensures
        tag@ == start_tag(name@, attribute_list_view(attributes@)),
{
    let mut content = copy(name);
    let mut entries: Vec<Option<Attribute>> = Vec::new();
    let ghost all = attribute_list_view(attributes@);
    let mut i: usize = 0;
    while i < attributes.len()
        invariant
            i <= attributes@.len(),
            all == attribute_list_view(attributes@),
            content@ == name@ + attributes_text(all.take(i as int)),
            entries@.len() == i,
            forall|j: int| 0 <= j < i ==> attributes_view(entries@)[j] == Some(all[j]),
        decreases attributes@.len() - i,
    {
        let attribute = &attributes[i];
        let ghost before = content@;
        proof {
            reveal_strlit(" ");
            reveal_strlit("=\"");
            reveal_strlit("\"");
        }
        append(&mut content, literal(" "));
        append(&mut content, attribute.key.as_slice());
        append(&mut content, literal("=\""));
        append(&mut content, attribute.value.as_slice());
        append(&mut content, literal("\""));
        let ghost earlier = entries@;
        entries.push(Some(attribute.duplicate()));
        proof {
            assert forall|j: int| 0 <= j < i + 1 implies attributes_view(entries@)[j] == Some(
                all[j],
            ) by {
                if j < i {
                    assert(attributes_view(earlier)[j] == Some(all[j]));
                    assert(entries@[j] == earlier[j]);
                }
            }
            assert(all.take(i + 1).drop_last() =~= all.take(i as int));
            assert(all.take(i + 1).last() == all[i as int]);
            assert(content@ =~= before + attribute_text(all[i as int]));
            assert(content@ =~= name@ + attributes_text(all.take(i + 1)));
        }
        i += 1;
    }
    proof {
        assert(all.take(attributes@.len() as int) =~= all);
        assert(attributes_view(entries@) =~= well_formed(all));
    }
    Token { kind: TokenKind::Start, content, attributes: entries }
}

/// Whether the pass targets the token: it is a start tag that the pass names.
pub open spec fn targeted(rule: Rule, token: TokenView) -> bool {
    token.kind == TokenKind::Start && (rule.targets)(token)
}

/// Whether the pass rebuilds the token at position `i`: it targets it and,
/// for a pass that rebuilds one tag only, targets no token before it.
pub open spec fn selected(rule: Rule, tokens: Seq<TokenView>, i: int) -> bool {
    &&& targeted(rule, tokens[i])
    &&& rule.first_only ==> forall|j: int| 0 <= j < i ==> !targeted(rule, #[trigger] tokens[j])
}

/// What the pass makes of the token at position `i`: the rebuilt tag where it
/// is selected, the token itself where it is not.
pub open spec fn rewritten_token(rule: Rule, tokens: Seq<TokenView>, i: int) -> Result<
    TokenView,
    SvgError,
> {
    if selected(rule, tokens, i) {
        match (rule.rewritten)(tokens[i]) {
            Ok(attributes) => Ok(start_tag(tag_name(tokens[i].content), attributes)),
            Err(error) => Err(error),
        }
    } else {
        Ok(tokens[i])
    }
}

/// What the pass makes of the first `n` tokens, taken in order: the tokens
/// it writes, or the first failure.
pub open spec fn rewritten_prefix(rule: Rule, tokens: Seq<TokenView>, n: nat) -> Result<
    Seq<TokenView>,
    SvgError,
>
    decreases n,
{
    if n == 0 {
        Ok(Seq::empty())
    } else {
        match rewritten_prefix(rule, tokens, (n - 1) as nat) {
            Ok(written) => match rewritten_token(rule, tokens, n - 1) {
                Ok(token) => Ok(written.push(token)),
                Err(error) => Err(error),
            },
            Err(error) => Err(error),
        }
    }
}

/// What the pass makes of a list of tokens.
pub open spec fn rewritten_tokens(rule: Rule, tokens: Seq<TokenView>) -> Result<
    Seq<TokenView>,
    SvgError,
> {
    rewritten_prefix(rule, tokens, tokens.len())
}

/// What the pass makes of a document: the new document, or the failure that
/// comes first in the order of the document. A document that could not be
/// read to its end fails where reading stopped.
pub open spec fn rewritten_document(rule: Rule, document: TokenStreamView) -> Result<
    Seq<u8>,
    SvgError,
> {
    match rewritten_tokens(rule, document.tokens) {
        Ok(written) => if document.complete {
            Ok(document_text(written))
        } else {
            Err(SvgError::XmlParseError)
        },
        Err(error) => Err(error),
    }
}

/// A failure among the first `n` tokens is the failure of every longer prefix.
pub proof fn failure_stays(rule: Rule, tokens: Seq<TokenView>, n: nat, m: nat)
    requires
        n <= m,
        rewritten_prefix(rule, tokens, n) is Err,
    ensures
        rewritten_prefix(rule, tokens, m) == rewritten_prefix(rule, tokens, n),
    decreases m,
{
    if n < m {
        failure_stays(rule, tokens, n, (m - 1) as nat);
    }
}

/// Runs the pass over a list of tokens.
pub fn rewrite_tokens<P: Pass>(pass: &P, tokens: &Vec<Token>) -> (result: Result<
    Vec<Token>,
    SvgError,
>)
    ensures
        match result {
            Ok(written) => rewritten_tokens(pass.rule(), tokens_view(tokens@)) == Ok::<
                Seq<TokenView>,
                SvgError,
            >(tokens_view(written@)),
            Err(error) => rewritten_tokens(pass.rule(), tokens_view(tokens@)) == Err::<
                Seq<TokenView>,
                SvgError,
            >(error),
        },
{
    let ghost all = tokens_view(tokens@);
    let once = pass.stops_after_first();
    let mut written: Vec<Token> = Vec::new();
    let mut seen = false;
    let mut i: usize = 0;
    assert(tokens_view(written@) =~= Seq::empty());
    while i < tokens.len()
        invariant
            i <= tokens@.len(),
            all == tokens_view(tokens@),
            once == pass.rule().first_only,
            rewritten_prefix(pass.rule(), all, i as nat) == Ok::<Seq<TokenView>, SvgError>(
                tokens_view(written@),
            ),
            seen == exists|j: int| 0 <= j < i && targeted(pass.rule(), #[trigger] all[j]),
        decreases tokens@.len() - i,
    {
        let token = &tokens[i];
        let ghost before = tokens_view(written@);
        let hit = match token.kind {
            TokenKind::Start => pass.is_target(token),
            _ => false,
        };
        assert(all[i as int] == token@);
        assert(hit == targeted(pass.rule(), all[i as int]));
        if hit && !(once && seen) {
            assert(selected(pass.rule(), all, i as int));
            match pass.rewrite(token) {
                Ok(attributes) => {
                    let tag = build_start_tag(token.name(), &attributes);
                    written.push(tag);
                    assert(tokens_view(written@) =~= before.push(
                        start_tag(tag_name(all[i as int].content), attribute_list_view(attributes@)),
                    ));
                },
                Err(error) => {
                    proof {
                        assert(rewritten_prefix(pass.rule(), all, (i + 1) as nat) == Err::<
                            Seq<TokenView>,
                            SvgError,
                        >(error));
                        failure_stays(pass.rule(), all, (i + 1) as nat, all.len());
                    }
                    return Err(error);
                },
            }
        } else {
            assert(!selected(pass.rule(), all, i as int));
            written.push(token.duplicate());
            assert(tokens_view(written@) =~= before.push(all[i as int]));
        }
        if hit {
            seen = true;
        }
        i += 1;
    }
    Ok(written)
}

/// Runs the pass over a document that was read into tokens.
pub fn rewrite_stream<P: Pass>(pass: &P, stream: &TokenStream) -> (result: Result<
    Vec<u8>,
    SvgError,
>)
    ensures
        match result {
            Ok(document) => rewritten_document(pass.rule(), stream@) == Ok::<Seq<u8>, SvgError>(
                document@,
            ),
            Err(error) => rewritten_document(pass.rule(), stream@) == Err::<Seq<u8>, SvgError>(error),
        },
{
    match rewrite_tokens(pass, &stream.tokens) {
        Ok(written) => {
            if stream.complete {
                Ok(render(&written))
            } else {
                Err(SvgError::XmlParseError)
            }
        },
        Err(error) => Err(error),
    }
}

/// Runs the pass over a document.
///
/// The result is the new document, or the first failure in the order of
/// the document: that of the pass at a tag it rebuilds, or `XmlParseError`
/// where the document is malformed.
pub fn rewrite<P: Pass>(pass: &P, document: &[u8]) -> (result: Result<Vec<u8>, SvgError>)
    ensures
        match result {
            Ok(written) => rewritten_document(pass.rule(), xml_document(document@)) == Ok::<
                Seq<u8>,
                SvgError,
            >(written@),
            Err(error) => rewritten_document(pass.rule(), xml_document(document@)) == Err::<
                Seq<u8>,
                SvgError,
            >(error),
        },
{
    let stream = read_tokens(document);
    rewrite_stream(pass, &stream)
}

/// A pass that succeeds writes one token for each token it read: the
/// rebuilt tag in place of each tag it selected, and every other token
/// unchanged.
pub proof fn rewrite_token_by_token(rule: Rule, tokens: Seq<TokenView>, n: nat)
    requires
        n <= tokens.len(),
        rewritten_prefix(rule, tokens, n) is Ok,
    ensures
        rewritten_prefix(rule, tokens, n)->Ok_0.len() == n,
        forall|i: int|
            0 <= i < n ==> rewritten_token(rule, tokens, i) == Ok::<TokenView, SvgError>(
                #[trigger] rewritten_prefix(rule, tokens, n)->Ok_0[i],
            ),
        forall|i: int|
            0 <= i < n && !selected(rule, tokens, i) ==> (#[trigger] rewritten_prefix(
                rule,
                tokens,
                n,
            )->Ok_0[i]) == tokens[i],
    decreases n,
{
    if n > 0 {
        rewrite_token_by_token(rule, tokens, (n - 1) as nat);
    }
}

/// A pass fails where it cannot rebuild a tag that it selected.
pub proof fn rewrite_fails_at(rule: Rule, tokens: Seq<TokenView>, i: int)
    requires
        0 <= i < tokens.len(),
        rewritten_token(rule, tokens, i) is Err,
    ensures
        rewritten_tokens(rule, tokens) is Err,
{
    if rewritten_tokens(rule, tokens) is Ok {
        rewrite_token_by_token(rule, tokens, tokens.len());
        let written = rewritten_tokens(rule, tokens)->Ok_0;
        assert(rewritten_token(rule, tokens, i) == Ok::<TokenView, SvgError>(written[i]));
    }
}

/// A pass fails with the failure of the first tag that it targets, where
/// that tag cannot be rebuilt.
pub proof fn rewrite_first_failure(rule: Rule, tokens: Seq<TokenView>, i: int)
    requires
        0 <= i < tokens.len(),
        rewritten_token(rule, tokens, i) is Err,
        forall|j: int| 0 <= j < i ==> !targeted(rule, #[trigger] tokens[j]),
    ensures
        rewritten_tokens(rule, tokens) == Err::<Seq<TokenView>, SvgError>(
            rewritten_token(rule, tokens, i)->Err_0,
        ),
{
    assert forall|n: nat| n <= i implies (#[trigger] rewritten_prefix(rule, tokens, n)) is Ok by {
        untargeted_prefix(rule, tokens, i as nat, n);
    }
    assert(rewritten_prefix(rule, tokens, i as nat) is Ok);
    assert(rewritten_prefix(rule, tokens, (i + 1) as nat) is Err);
    failure_stays(rule, tokens, (i + 1) as nat, tokens.len());
}

/// Where the pass targets none of the first `m` tokens, it writes each
/// prefix of them as it is.
proof fn untargeted_prefix(rule: Rule, tokens: Seq<TokenView>, m: nat, n: nat)
    requires
        n <= m <= tokens.len(),
        forall|j: int| 0 <= j < m ==> !targeted(rule, #[trigger] tokens[j]),
    ensures
        rewritten_prefix(rule, tokens, n) == Ok::<Seq<TokenView>, SvgError>(tokens.take(n as int)),
    decreases n,
{
    if n == 0 {
        assert(tokens.take(0) =~= Seq::empty());
    } else {
        untargeted_prefix(rule, tokens, m, (n - 1) as nat);
        assert(!targeted(rule, tokens[n - 1]));
        assert(tokens.take(n - 1).push(tokens[n - 1]) =~= tokens.take(n as int));
    }
}

/// A pass that targets no token of a document writes the tokens that it
/// read, each as it was: the new document is the text of those tokens.
pub proof fn rewrite_without_target(rule: Rule, document: TokenStreamView)
    requires
        forall|i: int| 0 <= i < document.tokens.len() ==> !targeted(rule, #[trigger] document.tokens[i]),
    ensures
        rewritten_tokens(rule, document.tokens) == Ok::<Seq<TokenView>, SvgError>(document.tokens),
        document.complete ==> rewritten_document(rule, document) == Ok::<Seq<u8>, SvgError>(
            document_text(document.tokens),
        ),
        !document.complete ==> rewritten_document(rule, document) == Err::<Seq<u8>, SvgError>(
            SvgError::XmlParseError,
        ),
{
    let tokens = document.tokens;
    assert forall|n: nat| n <= tokens.len() implies #[trigger] rewritten_prefix(rule, tokens, n)
        == Ok::<Seq<TokenView>, SvgError>(tokens.take(n as int)) by {
        untargeted_prefix(rule, tokens, tokens.len(), n);
    }
    assert(tokens.take(tokens.len() as int) =~= tokens);
}

/// A pass that leaves each token as it is leaves the list as it is.
pub proof fn rewrite_fixed(rule: Rule, tokens: Seq<TokenView>)
    requires
        forall|i: int|
            0 <= i < tokens.len() ==> #[trigger] rewritten_token(rule, tokens, i) == Ok::<
                TokenView,
                SvgError,
            >(tokens[i]),
    ensures
        rewritten_tokens(rule, tokens) == Ok::<Seq<TokenView>, SvgError>(tokens),
{
    assert forall|n: nat| n <= tokens.len() implies #[trigger] rewritten_prefix(rule, tokens, n)
        == Ok::<Seq<TokenView>, SvgError>(tokens.take(n as int)) by {
        fixed_prefix(rule, tokens, n);
    }
    assert(tokens.take(tokens.len() as int) =~= tokens);
}

/// Where the pass leaves each token as it is, it writes each prefix as it is.
proof fn fixed_prefix(rule: Rule, tokens: Seq<TokenView>, n: nat)
    requires
        n <= tokens.len(),
        forall|i: int|
            0 <= i < tokens.len() ==> #[trigger] rewritten_token(rule, tokens, i) == Ok::<
                TokenView,
                SvgError,
            >(tokens[i]),
    ensures
        rewritten_prefix(rule, tokens, n) == Ok::<Seq<TokenView>, SvgError>(tokens.take(n as int)),
    decreases n,
{
    if n == 0 {
        assert(tokens.take(0) =~= Seq::empty());
    } else {
        fixed_prefix(rule, tokens, (n - 1) as nat);
        assert(rewritten_token(rule, tokens, n - 1) == Ok::<TokenView, SvgError>(tokens[n - 1]));
        assert(tokens.take(n - 1).push(tokens[n - 1]) =~= tokens.take(n as int));
    }
}

/// A list of attributes that is not empty is written with a space first.
pub proof fn attributes_start_with_space(attributes: Seq<AttributeView>)
    requires
        attributes.len() > 0,
    ensures
        attributes_text(attributes).len() > 0,
        attributes_text(attributes)[0] == 0x20,
    decreases attributes.len(),
{
    reveal_strlit(" ");
    let last = attribute_text(attributes.last());
    assert(last[0] == 0x20);
    if attributes.len() > 1 {
        attributes_start_with_space(attributes.drop_last());
    } else {
        assert(attributes.drop_last().len() == 0);
        assert(attributes_text(attributes.drop_last()) =~= Seq::empty());
    }
}

/// A rebuilt tag has the name it was built with, where that name holds no
/// white space.
pub proof fn rebuilt_tag_name(name: Seq<u8>, attributes: Seq<AttributeView>)
    requires
        forall|i: int| 0 <= i < name.len() ==> !is_space(#[trigger] name[i]),
    ensures
        tag_name(start_tag(name, attributes).content) == name,
{
    let content = start_tag(name, attributes).content;
    if attributes.len() > 0 {
        attributes_start_with_space(attributes);
        assert(content[name.len() as int] == attributes_text(attributes)[0]);
    } else {
        assert(content =~= name);
    }
    assert forall|i: int| 0 <= i < name.len() implies !is_space(#[trigger] content[i]) by {
        assert(content[i] == name[i]);
    }
    name_len_is(content, name.len());
    assert(content.take(name.len() as int) =~= name);
}

} // verus!
