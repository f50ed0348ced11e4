//! Path data out of a drawing in markup.
//!
//! A drawing holds its paths as `path` elements; the `d` attribute of such an
//! element is path data. The markup itself is read by the `xml` crate; which
//! attributes are taken from what it reports is decided here.

use vstd::prelude::*;
use xml::reader::EventReader;
use xml::reader::XmlEvent;

verus! {

/// An attribute of an element: its local name and its value.
#[derive(Debug, PartialEq, Eq)]
pub struct Attribute {
    pub name: String,
    pub value: String,
}

/// What the markup reader reports, as far as it matters here.
#[derive(Debug, PartialEq, Eq)]
pub enum Markup {
    /// An element begins; `name` is its local name.
    Start { name: String, attributes: Vec<Attribute> },
    /// Anything else: text, comments, the end of an element or of the
    /// document.
    Other,
}

/// The value of an attribute.
pub struct AttributeView {
    pub name: Seq<char>,
    pub value: Seq<char>,
}

/// The value of a report.
pub enum MarkupView {
    Start { name: Seq<char>, attributes: Seq<AttributeView> },
    Other,
}

impl View for Attribute {
    type V = AttributeView;

    open spec fn view(&self) -> AttributeView {
        AttributeView { name: self.name@, value: self.value@ }
    }
}

impl View for Markup {
    type V = MarkupView;

    open spec fn view(&self) -> MarkupView {
        match *self {
            Markup::Start { name, attributes } => MarkupView::Start {
                name: name@,
                attributes: attributes@.map_values(|a: Attribute| a@),
            },
            Markup::Other => MarkupView::Other,
        }
    }
}

/// The values of a list of reports.
pub open spec fn markup_view(v: Seq<Markup>) -> Seq<MarkupView> {
    v.map_values(|m: Markup| m@)
}

/// The values of a list of strings.
pub open spec fn strings_view(v: Seq<String>) -> Seq<Seq<char>> {
    v.map_values(|s: String| s@)
}

/// The values of the attributes named `d` among those from number `from` on,
/// in their order.
pub open spec fn d_values(attributes: Seq<AttributeView>, from: int) -> Seq<Seq<char>>
    decreases attributes.len() - from,
{
    if 0 <= from < attributes.len() {
        if attributes[from].name == "d"@ {
            seq![attributes[from].value] + d_values(attributes, from + 1)
        } else {
            d_values(attributes, from + 1)
        }
    } else {
        Seq::empty()
    }
}

/// The path data that one report holds: the `d` attributes of an element
/// named `path`, nothing for anything else.
pub open spec fn report_paths(m: MarkupView) -> Seq<Seq<char>> {
    match m {
        MarkupView::Start { name, attributes } => if name == "path"@ {
            d_values(attributes, 0)
        } else {
            Seq::empty()
        },
        MarkupView::Other => Seq::empty(),
    }
}

/// The path data in the reports from number `from` on, in document order.
pub open spec fn path_data(events: Seq<MarkupView>, from: int) -> Seq<Seq<char>>
    decreases events.len() - from,
{
    if 0 <= from < events.len() {
        report_paths(events[from]) + path_data(events, from + 1)
    } else {
        Seq::empty()
    }
}

/// The reports that the markup reader gives for a document, from its start to
/// its end, or nothing where the document is not well formed.
pub uninterp spec fn document_events(doc: Seq<u8>) -> Option<Seq<MarkupView>>;

#[verifier::external_type_specification]
#[verifier::external_body]
pub struct ExReaderError(xml::reader::Error);

/// Reads a whole document with `xml::reader::EventReader` in its default
/// configuration and hands back every event that its iterator yields, the
/// closing end-of-document event included. The reader's first error ends
/// the reading and is handed back instead. Each event is kept as a
/// [`Markup`]: of a start tag the local name and the attributes' local names
/// and values, of any other event only that it occurred. The events depend
/// on the bytes of the document alone.
#[verifier::external_body]
fn read_events(doc: &[u8]) -> (r: Result<Vec<Markup>, xml::reader::Error>)
    ensures
        match r {
            Ok(events) => document_events(doc@) == Some(markup_view(events@)),
            Err(_) => document_events(doc@) is None,
        },
{
    EventReader::new(doc).into_iter().map(
        |event| match event? {
            XmlEvent::StartElement { name, attributes, .. } => Ok(
                Markup::Start {
                    name: name.local_name,
                    attributes: attributes.into_iter().map(
                        |a| Attribute { name: a.name.local_name, value: a.value },
                    ).collect(),
                },
            ),
            _ => Ok(Markup::Other),
        },
    ).collect()
}

/// Why no path data could be had from a document.
#[derive(Debug, PartialEq, Eq, Clone, Copy)]
pub enum SvgError {
    /// The document is not well-formed markup.
    Malformed,
}

/// Adds the values of an element's `d` attributes to `out`.
fn take_d_values(attributes: &Vec<Attribute>, out: &mut Vec<String>)
    ensures
        strings_view(final(out)@) == strings_view(old(out)@) + d_values(
            attributes@.map_values(|a: Attribute| a@),
            0,
        ),
{
    let ghost before = strings_view(out@);
    let ghost attrs = attributes@.map_values(|a: Attribute| a@);
    let d = "d".to_owned();
    let mut i: usize = 0;
    while i < attributes.len()
        invariant
            i <= attributes@.len(),
            d@ == "d"@,
            attrs == attributes@.map_values(|a: Attribute| a@),
            strings_view(out@) + d_values(attrs, i as int) == before + d_values(attrs, 0),
        decreases attributes@.len() - i,
    {
        let attr = &attributes[i];
        proof {
            assert(attrs[i as int] == attr@);
        }
        if attr.name == d {
            let ghost so_far = strings_view(out@);
            let value = attr.value.clone();
            proof {
                let tail = d_values(attrs, i + 1);
                assert(strings_view(out@.push(value)) =~= so_far.push(value@));
                assert(so_far.push(value@) + tail =~= so_far + (seq![value@] + tail));
            }
            out.push(value);
        }
        i = i + 1;
    }
    proof {
        assert(strings_view(out@) + Seq::<Seq<char>>::empty() =~= strings_view(out@));
    }
}

/// Picks the path data out of what the markup reader reported: the value of
/// every `d` attribute of every element named `path`, in document order.
pub fn collect_paths(events: &Vec<Markup>) -> (r: Vec<String>)
    ensures
        strings_view(r@) == path_data(markup_view(events@), 0),
{
    let mut v: Vec<String> = Vec::new();
    let ghost reports = markup_view(events@);
    let path = "path".to_owned();
    let mut i: usize = 0;
    proof {
        assert(strings_view(v@) =~= Seq::empty());
    }
    while i < events.len()
        invariant
            i <= events@.len(),
            path@ == "path"@,
            reports == markup_view(events@),
            strings_view(v@) + path_data(reports, i as int) == path_data(reports, 0),
        decreases events@.len() - i,
    {
        let ghost so_far = strings_view(v@);
        proof {
            assert(reports[i as int] == events@[i as int]@);
        }
        match &events[i] {
            Markup::Start { name, attributes } => {
                if *name == path {
                    take_d_values(attributes, &mut v);
                }
            },
            Markup::Other => {},
        }
        proof {
            let here = report_paths(reports[i as int]);
            let tail = path_data(reports, i + 1);
            assert(strings_view(v@) =~= so_far + here);
            assert((so_far + here) + tail =~= so_far + (here + tail));
        }
        i = i + 1;
    }
    proof {
        assert(strings_view(v@) + Seq::<Seq<char>>::empty() =~= strings_view(v@));
    }
    v
}

/// The path data of a drawing: the `d` attributes of its `path` elements, in
/// document order. A document that is not well-formed markup gives an error,
/// also where path data stands before the fault.
pub fn get_paths(doc: &[u8]) -> (r: Result<Vec<String>, SvgError>)
    ensures
        match document_events(doc@) {
            Some(events) => r matches Ok(v) && strings_view(v@) == path_data(events, 0),
            None => r is Err,
        },
{
    match read_events(doc) {
        Ok(events) => Ok(collect_paths(&events)),
        Err(_) => Err(SvgError::Malformed),
    }
}

} // verus!
