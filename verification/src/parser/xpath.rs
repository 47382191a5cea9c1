//! XPath queries over an XML or XHTML text, on top of `sxd_document` and
//! `sxd_xpath`.

use vstd::prelude::*;
use vstd::multiset::Multiset;

verus! {

/// What an XPath evaluates to, each kind of value given as plain values:
/// the text of each selected node, a string, a number written as text,
/// or a boolean.
pub enum XPathOutcome {
    Nodes(Vec<String>),
    Text(String),
    Number(String),
    Boolean(bool),
}

/// The value an XPath gives, as mathematical values: the texts of a node
/// set as a multiset (`sxd_xpath` keeps node sets unordered), or the one
/// string, number (written by `f64::to_string`) or boolean.
pub enum XPathValue {
    Nodes(Multiset<Seq<char>>),
    Text(Seq<char>),
    Number(Seq<char>),
    Boolean(bool),
}

impl View for XPathOutcome {
    type V = XPathValue;

    open spec fn view(&self) -> XPathValue {
        match self {
            XPathOutcome::Nodes(v) => XPathValue::Nodes(v@.map_values(|s: String| s@).to_multiset()),
            XPathOutcome::Text(s) => XPathValue::Text(s@),
            XPathOutcome::Number(s) => XPathValue::Number(s@),
            XPathOutcome::Boolean(b) => XPathValue::Boolean(*b),
        }
    }
}

/// What `sxd_xpath` gives for an XPath evaluated at the root of the
/// document `sxd_document` parses from a text: nothing when the text does
/// not parse, the XPath builds no expression, or the evaluation fails.
pub uninterp spec fn xpath_value(xml: Seq<char>, xpath: Seq<char>) -> Option<XPathValue>;

/// Whether `sxd_document::parser::parse` accepts the text.
pub uninterp spec fn xml_parses(src: Seq<char>) -> bool;

/// Whether `sxd_xpath::Factory::build` gives an expression for the text.
pub uninterp spec fn xpath_builds(e: Seq<char>) -> bool;

/// Parses the text with `sxd_document::parser::parse`, builds the XPath
/// with `sxd_xpath::Factory::build` and evaluates it at the document's
/// root; each kind of result is converted to plain values (a number with
/// `f64::to_string`). The claim is that the result is `xpath_value` of the
/// two texts, with a node set's texts taken as a multiset, and that a text
/// that does not parse, or an XPath that builds no expression, gives
/// nothing. The order of a node set's texts is not stated: `sxd_xpath`
/// keeps node sets in a hash set.
#[verifier::external_body]
fn evaluate_xpath(html: &str, xpath: &str) -> (r: Option<XPathOutcome>)
    ensures
        r is Some <==> xpath_value(html@, xpath@) is Some,
        r matches Some(o) ==> xpath_value(html@, xpath@) == Some(o@),
        (!xml_parses(html@) || !xpath_builds(xpath@)) ==> r is None,
{
    let package = sxd_document::parser::parse(html).ok()?;
    let document = package.as_document();
    let expr = sxd_xpath::Factory::new().build(xpath).ok()??;
    match expr.evaluate(&sxd_xpath::Context::new(), document.root()).ok()? {
        sxd_xpath::Value::Nodeset(ns) => Some(XPathOutcome::Nodes(ns.into_iter().map(|n| n.string_value()).collect())),
        sxd_xpath::Value::String(s) => Some(XPathOutcome::Text(s)),
        sxd_xpath::Value::Number(n) => Some(XPathOutcome::Number(n.to_string())),
        sxd_xpath::Value::Boolean(b) => Some(XPathOutcome::Boolean(b)),
    }
}

pub open spec fn lit_true() -> Seq<char> {
    seq!['t', 'r', 'u', 'e']
}

pub open spec fn lit_false() -> Seq<char> {
    seq!['f', 'a', 'l', 's', 'e']
}

/// The texts an XPath result gives: nothing for no result, the text of
/// each node of a node set, the one text of a string or number, and
/// `true` or `false` for a boolean.
pub open spec fn spec_xpath_texts(o: Option<XPathOutcome>) -> Seq<Seq<char>> {
    match o {
        None => seq![],
        Some(XPathOutcome::Nodes(v)) => v@.map_values(|s: String| s@),
        Some(XPathOutcome::Text(s)) => seq![s@],
        Some(XPathOutcome::Number(s)) => seq![s@],
        Some(XPathOutcome::Boolean(b)) => seq![if b { lit_true() } else { lit_false() }],
    }
}

/// The texts an XPath result gives.
pub fn xpath_texts(o: Option<XPathOutcome>) -> (r: Vec<String>)
    ensures
        r@.map_values(|s: String| s@) == spec_xpath_texts(o),
{
    match o {
        None => Vec::new(),
        Some(XPathOutcome::Nodes(v)) => v,
        Some(XPathOutcome::Text(s)) => {
            let r = vec![s];
            assert(r@.map_values(|s: String| s@) =~= spec_xpath_texts(o));
            r
        },
        Some(XPathOutcome::Number(s)) => {
            let r = vec![s];
            assert(r@.map_values(|s: String| s@) =~= spec_xpath_texts(o));
            r
        },
        Some(XPathOutcome::Boolean(b)) => {
            let t = if b {
                proof {
                    reveal_strlit("true");
                }
                assert("true"@ =~= lit_true());
                String::from_str("true")
            } else {
                proof {
                    reveal_strlit("false");
                }
                assert("false"@ =~= lit_false());
                String::from_str("false")
            };
            let r = vec![t];
            assert(r@.map_values(|s: String| s@) =~= spec_xpath_texts(o));
            r
        },
    }
}

/// The texts of an XPath value, as a multiset: the node texts, or the one
/// text of a string, number or boolean; none for no value.
pub open spec fn value_texts(v: Option<XPathValue>) -> Multiset<Seq<char>> {
    match v {
        None => Multiset::empty(),
        Some(XPathValue::Nodes(m)) => m,
        Some(XPathValue::Text(s)) => Multiset::singleton(s),
        Some(XPathValue::Number(s)) => Multiset::singleton(s),
        Some(XPathValue::Boolean(b)) => Multiset::singleton(if b { lit_true() } else { lit_false() }),
    }
}

proof fn lemma_xpath_texts_multiset(o: Option<XPathOutcome>)
    ensures
        spec_xpath_texts(o).to_multiset() == value_texts(match o {
            Some(x) => Some(x@),
            None => None,
        }),
{
    broadcast use vstd::seq_lib::group_to_multiset_ensures;

    match o {
        None => {
            assert(Seq::<Seq<char>>::empty().to_multiset().len() == 0);
            assert(Seq::<Seq<char>>::empty().to_multiset() =~= Multiset::empty());
        },
        Some(XPathOutcome::Nodes(v)) => {},
        Some(x) => {
            let t = spec_xpath_texts(o);
            assert(t == Seq::<Seq<char>>::empty().push(t[0]));
            assert(Seq::<Seq<char>>::empty().to_multiset() =~= Multiset::empty());
            assert(t.to_multiset() =~= Multiset::empty().insert(t[0]));
            assert(Multiset::<Seq<char>>::empty().insert(t[0]) =~= Multiset::singleton(t[0]));
        },
    }
}

/// The texts an XPath selects from an XML text: the texts of the selected
/// nodes (in no stated order), or the one string, number or boolean the
/// XPath gives; nothing when the text does not parse or the XPath builds no
/// expression (or fails to evaluate).
pub fn select_xpath(html: &str, xpath: &str) -> (r: Vec<String>)
    ensures
        r@.map_values(|s: String| s@).to_multiset() == value_texts(xpath_value(html@, xpath@)),
        (!xml_parses(html@) || !xpath_builds(xpath@)) ==> r@.len() == 0,
{
    let o = evaluate_xpath(html, xpath);
    proof {
        lemma_xpath_texts_multiset(o);
    }
    let r = xpath_texts(o);
    proof {
        assert(r@.map_values(|s: String| s@).len() == r@.len());
        if o is None {
            assert(r@.map_values(|s: String| s@).len() == 0);
        }
    }
    r
}

} // verus!
