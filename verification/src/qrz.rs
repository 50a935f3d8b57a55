//! Callbook lookups: the region-aware offline profiles, the interpretation
//! of QRZ.com XML replies, and the decisions of a lookup between its
//! network requests.
use vstd::prelude::*;
use vstd::string::StringExecFns;

use crate::state::copy_opt_string;
use crate::text::chars_of;
use crate::text::contains;
use crate::text::contains_chars;
use crate::text::is_ascii_digit;
use crate::text::starts_with;
use crate::text::string_of;
use crate::text::to_uppercase;
use crate::text::trim;
use crate::text::trim_chars;
use crate::text::upper_case;
use crate::text::ascii_upper;
use crate::text::is_ascii_text;

verus! {

/// What a lookup found about a callsign.
#[derive(Clone, Debug)]
pub struct QrzData {
    pub callsign: String,
    pub name: Option<String>,
    pub location: Option<String>,
    pub is_mock: bool,
}

/// The mathematical value of a lookup result.
pub struct QrzDataView {
    pub callsign: Seq<char>,
    pub name: Option<Seq<char>>,
    pub location: Option<Seq<char>>,
    pub is_mock: bool,
}

pub open spec fn opt_view(s: Option<String>) -> Option<Seq<char>> {
    match s {
        Some(t) => Some(t@),
        None => None,
    }
}

impl View for QrzData {
    type V = QrzDataView;

    open spec fn view(&self) -> QrzDataView {
        QrzDataView {
            callsign: self.callsign@,
            name: opt_view(self.name),
            location: opt_view(self.location),
            is_mock: self.is_mock,
        }
    }
}

/// A lookup result as a value.
pub open spec fn result_view(r: Result<QrzData, String>) -> Result<QrzDataView, Seq<char>> {
    match r {
        Ok(d) => Ok(d@),
        Err(e) => Err(e@),
    }
}

// ---------------------------------------------------------------------------
// Offline profiles
// ---------------------------------------------------------------------------

/// The value of the first ASCII digit of `s`, if any.
pub open spec fn first_digit(s: Seq<char>) -> Option<u32>
    decreases s.len(),
{
    if s.len() == 0 {
        None
    } else if is_ascii_digit(s[0]) {
        Some(((s[0] as u32) - 48) as u32)
    } else {
        first_digit(s.drop_first())
    }
}

/// The name and location of the offline profile for an (uppercase)
/// callsign: international prefixes first, then the US call district of
/// the first digit.
pub open spec fn mock_profile(call: Seq<char>) -> (Seq<char>, Seq<char>) {
    if starts_with(call, seq!['V', 'E']) || starts_with(call, seq!['V', 'A']) {
        ("Maple Leaf"@, "Toronto, ON, Canada"@)
    } else if starts_with(call, seq!['G']) || starts_with(call, seq!['M']) {
        ("Arthur Pendragon"@, "London, UK"@)
    } else if starts_with(call, seq!['D', 'L']) {
        ("Dieter Munich"@, "Berlin, Germany"@)
    } else if starts_with(call, seq!['J', 'A']) {
        ("Yoshi Tokyo"@, "Tokyo, Japan"@)
    } else if starts_with(call, seq!['F']) {
        ("Pierre Paris"@, "Paris, France"@)
    } else {
        match first_digit(call) {
            Some(1) => ("Alice Newhaven"@, "Boston, MA, USA"@),
            Some(2) => ("Bob Jersey"@, "Newark, NJ, USA"@),
            Some(3) => ("Charlie Keystone"@, "Philadelphia, PA, USA"@),
            Some(4) => ("David Dixie"@, "Atlanta, GA, USA"@),
            Some(5) => ("Emma Ranger"@, "Austin, TX, USA"@),
            Some(6) => ("Frank Golden"@, "San Francisco, CA, USA"@),
            Some(7) => ("George Cascade"@, "Seattle, WA, USA"@),
            Some(8) => ("Hannah Buckeye"@, "Cleveland, OH, USA"@),
            Some(9) => ("Ian Badger"@, "Madison, WI, USA"@),
            Some(0) => ("Jack Rockies"@, "Denver, CO, USA"@),
            _ => ("Global Op"@, "Unknown DXCC"@),
        }
    }
}

/// The offline record for a callsign as typed.
pub open spec fn mock_data(callsign: Seq<char>) -> QrzDataView {
    let call = upper_case(trim(callsign));
    QrzDataView {
        callsign: call,
        name: Some(mock_profile(call).0),
        location: Some(mock_profile(call).1),
        is_mock: true,
    }
}

/// An offline record is marked as such and always has a name and a
/// location, under the callsign trimmed and in upper case; a callsign with
/// none of the known prefixes and no digit gets the generic profile; and
/// looking the record's own callsign up again gives the same record
/// wherever trimming and upper-casing it a second time changes nothing.
pub proof fn law_offline_record(callsign: Seq<char>)
    ensures
        mock_data(callsign).is_mock,
        mock_data(callsign).callsign == upper_case(trim(callsign)),
        mock_data(callsign).name is Some,
        mock_data(callsign).location is Some,
        ({
            let call = upper_case(trim(callsign));
            !starts_with(call, seq!['V', 'E']) && !starts_with(call, seq!['V', 'A'])
                && !starts_with(call, seq!['G']) && !starts_with(call, seq!['M'])
                && !starts_with(call, seq!['D', 'L']) && !starts_with(call, seq!['J', 'A'])
                && !starts_with(call, seq!['F']) && first_digit(call) is None
                ==> mock_data(callsign).name == Some("Global Op"@) && mock_data(callsign).location
                == Some("Unknown DXCC"@)
        }),
        upper_case(trim(upper_case(trim(callsign)))) == upper_case(trim(callsign)) ==> mock_data(
            mock_data(callsign).callsign,
        ) == mock_data(callsign),
{
}

fn prefix_is(v: &[char], a: char, b: Option<char>) -> (r: bool)
    ensures
        r == match b {
            Some(c) => starts_with(v@, seq![a, c]),
            None => starts_with(v@, seq![a]),
        },
{
    match b {
        Some(c) => {
            let r = v.len() >= 2 && v[0] == a && v[1] == c;
            proof {
                if r {
                    assert(v@.take(2) == seq![a, c]);
                }
                if v@.len() >= 2 && v@.take(2) == seq![a, c] {
                    assert(v@.take(2)[0] == v@[0] && v@.take(2)[1] == v@[1]);
                }
            }
            r
        },
        None => {
            let r = v.len() >= 1 && v[0] == a;
            proof {
                if r {
                    assert(v@.take(1) == seq![a]);
                }
                if v@.len() >= 1 && v@.take(1) == seq![a] {
                    assert(v@.take(1)[0] == v@[0]);
                }
            }
            r
        },
    }
}

fn first_digit_of(v: &[char]) -> (r: Option<u32>)
    ensures
        r == first_digit(v@),
{
    let n = v.len();
    let mut i: usize = 0;
    assert(v@.skip(0) == v@);
    while i < n
        invariant
            i <= n == v@.len(),
            first_digit(v@) == first_digit(v@.skip(i as int)),
        decreases n - i,
    {
        let c = v[i];
        assert(v@.skip(i as int)[0] == c);
        if '0' <= c && c <= '9' {
            return Some(c as u32 - 48);
        }
        assert(v@.skip(i as int).drop_first() == v@.skip(i + 1));
        i += 1;
    }
    assert(v@.skip(n as int).len() == 0);
    None
}

fn profile_for(call: &[char]) -> (r: (&'static str, &'static str))
    ensures
        r.0@ == mock_profile(call@).0,
        r.1@ == mock_profile(call@).1,
{
    if prefix_is(call, 'V', Some('E')) || prefix_is(call, 'V', Some('A')) {
        ("Maple Leaf", "Toronto, ON, Canada")
    } else if prefix_is(call, 'G', None) || prefix_is(call, 'M', None) {
        ("Arthur Pendragon", "London, UK")
    } else if prefix_is(call, 'D', Some('L')) {
        ("Dieter Munich", "Berlin, Germany")
    } else if prefix_is(call, 'J', Some('A')) {
        ("Yoshi Tokyo", "Tokyo, Japan")
    } else if prefix_is(call, 'F', None) {
        ("Pierre Paris", "Paris, France")
    } else {
        match first_digit_of(call) {
            Some(1) => ("Alice Newhaven", "Boston, MA, USA"),
            Some(2) => ("Bob Jersey", "Newark, NJ, USA"),
            Some(3) => ("Charlie Keystone", "Philadelphia, PA, USA"),
            Some(4) => ("David Dixie", "Atlanta, GA, USA"),
            Some(5) => ("Emma Ranger", "Austin, TX, USA"),
            Some(6) => ("Frank Golden", "San Francisco, CA, USA"),
            Some(7) => ("George Cascade", "Seattle, WA, USA"),
            Some(8) => ("Hannah Buckeye", "Cleveland, OH, USA"),
            Some(9) => ("Ian Badger", "Madison, WI, USA"),
            Some(0) => ("Jack Rockies", "Denver, CO, USA"),
            _ => ("Global Op", "Unknown DXCC"),
        }
    }
}

/// The trimmed, uppercased form of a callsign as typed.
pub fn normalize_callsign(callsign: &str) -> (r: String)
    ensures
        r@ == upper_case(trim(callsign@)),
        is_ascii_text(callsign@) ==> r@ == ascii_upper(trim(callsign@)),
{
    let v = chars_of(callsign);
    let t = trim_chars(&v);
    proof {
        crate::trivia::lemma_trim_keeps_ascii(callsign@);
    }
    let s = string_of(&t);
    to_uppercase(s.as_str())
}

// ---------------------------------------------------------------------------
// XML replies
// ---------------------------------------------------------------------------

/// One node of a parsed XML document, in document order: whether it is an
/// element, its local tag name (empty for other nodes), its text (for an
/// element, the text of a leading text child) and its depth (the number of
/// its ancestors, itself included).
pub struct XmlNode {
    pub is_element: bool,
    pub name: String,
    pub text: Option<String>,
    pub depth: usize,
}

/// An XML node as a value: element flag, local name, text, depth.
pub type NodeInfo = (bool, Seq<char>, Option<Seq<char>>, usize);

/// An XML node as a value.
pub open spec fn node_view(n: XmlNode) -> NodeInfo {
    (n.is_element, n.name@, opt_view(n.text), n.depth)
}

/// What `roxmltree::Document::parse` makes of a text: every node of the
/// document in document order (as `node_view` describes them), or the text
/// of its error.
pub uninterp spec fn xml_document_nodes(xml: Seq<char>) -> Result<
    Seq<NodeInfo>,
    Seq<char>,
>;

/// Calls `roxmltree::Document::parse` and lists the document's nodes
/// (`descendants()` of the root) with their element flag, local name,
/// `text()` and ancestor count; an error becomes its display text. The
/// contract only names the result (`xml_document_nodes`).
#[verifier::external_body]
fn parse_xml_nodes(xml: &str) -> (r: Result<Vec<XmlNode>, String>)
    ensures
        match r {
            Ok(v) => xml_document_nodes(xml@) == Ok::<Seq<NodeInfo>, Seq<char>>(
                v@.map_values(|n: XmlNode| node_view(n)),
            ),
            Err(e) => xml_document_nodes(xml@) == Err::<Seq<NodeInfo>, Seq<char>>(e@),
        },
{
    match roxmltree::Document::parse(xml) {
        Ok(doc) => Ok(
            doc.descendants().map(
                |n| XmlNode {
                    is_element: n.is_element(),
                    name: n.tag_name().name().to_string(),
                    text: n.text().map(|t| t.to_string()),
                    depth: n.ancestors().count(),
                },
            ).collect(),
        ),
        Err(e) => Err(e.to_string()),
    }
}

/// The first element named `tag` among `nodes[lo..hi]`.
pub open spec fn first_element(
    nodes: Seq<NodeInfo>,
    lo: int,
    hi: int,
    tag: Seq<char>,
) -> Option<int>
    decreases hi - lo,
{
    if lo >= hi {
        None
    } else if nodes[lo].0 && nodes[lo].1 == tag {
        Some(lo)
    } else {
        first_element(nodes, lo + 1, hi, tag)
    }
}

/// The first index from `j` on whose depth is at most `d` (or the end).
pub open spec fn depth_drop(nodes: Seq<NodeInfo>, d: usize, j: int) -> int
    decreases nodes.len() - j,
{
    if j >= nodes.len() {
        nodes.len() as int
    } else if nodes[j].3 <= d {
        j
    } else {
        depth_drop(nodes, d, j + 1)
    }
}

/// The end of node `i`'s subtree: in document order a node's descendants
/// are the deeper nodes that follow it.
pub open spec fn subtree_end(nodes: Seq<NodeInfo>, i: int) -> int {
    depth_drop(nodes, nodes[i].3, i + 1)
}

/// The text of the first element named `tag` in `nodes[lo..hi]`.
pub open spec fn field_text(
    nodes: Seq<NodeInfo>,
    lo: int,
    hi: int,
    tag: Seq<char>,
) -> Option<Seq<char>> {
    match first_element(nodes, lo, hi, tag) {
        Some(k) => nodes[k].2,
        None => None,
    }
}

/// Given and family name joined by a space.
pub open spec fn full_name(first: Option<Seq<char>>, last: Option<Seq<char>>) -> Option<Seq<char>> {
    match (first, last) {
        (Some(f), Some(n)) => Some(f + " "@ + n),
        (Some(f), None) => Some(f),
        (None, Some(n)) => Some(n),
        _ => None,
    }
}

/// City, state and country joined by commas, where given (a city alone or
/// a state alone gives nothing).
pub open spec fn location_text(
    city: Option<Seq<char>>,
    state: Option<Seq<char>>,
    country: Option<Seq<char>>,
) -> Option<Seq<char>> {
    match (city, state, country) {
        (Some(c), Some(s), Some(co)) => Some(c + ", "@ + s + ", "@ + co),
        (Some(c), Some(s), None) => Some(c + ", "@ + s),
        (Some(c), None, Some(co)) => Some(c + ", "@ + co),
        (None, Some(s), Some(co)) => Some(s + ", "@ + co),
        (None, None, Some(co)) => Some(co),
        _ => None,
    }
}

/// The text of an element, or `fallback` when it has none.
pub open spec fn text_or(t: Option<Seq<char>>, fallback: Seq<char>) -> Seq<char> {
    match t {
        Some(s) => s,
        None => fallback,
    }
}

/// How the nodes of a QRZ.com callsign reply read: a session timeout or
/// not-found error, a missing record, or the name and location of the
/// record.
pub open spec fn callsign_reply(callsign: Seq<char>, nodes: Seq<NodeInfo>) -> Result<QrzDataView, Seq<char>> {
    let n = nodes.len() as int;
    let err = first_element(nodes, 0, n, "Error"@);
    let err_text = match err {
        Some(i) => text_or(nodes[i].2, "Unknown error"@),
        None => seq![],
    };
    if err is Some && (contains(err_text, "Session Timeout"@) || contains(err_text, "not found"@)) {
        Err(err_text)
    } else {
        match first_element(nodes, 0, n, "Callsign"@) {
            None => Err("Callsign "@ + callsign + " not found in QRZ database"@),
            Some(c) => {
                let end = subtree_end(nodes, c);
                Ok(
                    QrzDataView {
                        callsign,
                        name: full_name(
                            field_text(nodes, c, end, "fname"@),
                            field_text(nodes, c, end, "name"@),
                        ),
                        location: location_text(
                            field_text(nodes, c, end, "addr2"@),
                            field_text(nodes, c, end, "state"@),
                            field_text(nodes, c, end, "country"@),
                        ),
                        is_mock: false,
                    },
                )
            },
        }
    }
}

/// How a QRZ.com callsign reply reads (see `callsign_reply`), or why it is
/// not XML.
pub open spec fn qrz_record(callsign: Seq<char>, xml: Seq<char>) -> Result<QrzDataView, Seq<char>> {
    match xml_document_nodes(xml) {
        Err(e) => Err("XML parse error: "@ + e),
        Ok(nodes) => callsign_reply(callsign, nodes),
    }
}

/// How the nodes of a QRZ.com login reply read: its error, or its session
/// key.
pub open spec fn login_nodes_reply(nodes: Seq<NodeInfo>) -> Result<Seq<char>, Seq<char>> {
    let n = nodes.len() as int;
    match first_element(nodes, 0, n, "Error"@) {
        Some(i) => Err(text_or(nodes[i].2, "Unknown login error"@)),
        None => match first_element(nodes, 0, n, "Key"@) {
            None => Err("No Session Key found in login XML"@),
            Some(k) => match nodes[k].2 {
                None => Err("Empty Session Key"@),
                Some(key) => Ok(key),
            },
        },
    }
}

/// The first `Error` element of the reply says the session timed out or
/// the callsign was not found.
pub open spec fn fatal_error(nodes: Seq<NodeInfo>) -> bool {
    match first_element(nodes, 0, nodes.len() as int, "Error"@) {
        Some(i) => {
            let t = text_or(nodes[i].2, "Unknown error"@);
            contains(t, "Session Timeout"@) || contains(t, "not found"@)
        },
        None => false,
    }
}

/// A callsign reply fails exactly when it is not XML, or its first `Error`
/// says "Session Timeout" or "not found", or it has no `Callsign` element,
/// checked in that order; an `Error` with other text is ignored, and a
/// record found is live data for the callsign asked about.
pub proof fn law_callsign_reply_outcome(callsign: Seq<char>, xml: Seq<char>)
    ensures
        xml_document_nodes(xml) matches Err(e) ==> qrz_record(callsign, xml) == Err::<
            QrzDataView,
            Seq<char>,
        >("XML parse error: "@ + e),
        xml_document_nodes(xml) matches Ok(nodes) ==> {
            let n = nodes.len() as int;
            &&& fatal_error(nodes) ==> qrz_record(callsign, xml) == Err::<QrzDataView, Seq<char>>(
                text_or(nodes[first_element(nodes, 0, n, "Error"@)->0].2, "Unknown error"@),
            )
            &&& !fatal_error(nodes) && first_element(nodes, 0, n, "Callsign"@) is None
                ==> qrz_record(callsign, xml) == Err::<QrzDataView, Seq<char>>(
                "Callsign "@ + callsign + " not found in QRZ database"@,
            )
            &&& !fatal_error(nodes) && first_element(nodes, 0, n, "Callsign"@) is Some ==> (
            qrz_record(callsign, xml) matches Ok(d) && d.callsign == callsign && !d.is_mock)
        },
{
}

/// The location read from a callsign record: present exactly when the
/// record gives a country, or both a city and a state; the country, when
/// given, always ends it, and the city, when given and the location is
/// present, begins it.
pub proof fn law_record_location_keeps_its_parts(callsign: Seq<char>, nodes: Seq<NodeInfo>)
    ensures
        callsign_reply(callsign, nodes) matches Ok(d) ==> {
            let c = first_element(nodes, 0, nodes.len() as int, "Callsign"@)->0;
            let end = subtree_end(nodes, c);
            let city = field_text(nodes, c, end, "addr2"@);
            let state = field_text(nodes, c, end, "state"@);
            let country = field_text(nodes, c, end, "country"@);
            &&& (d.location is Some <==> (country is Some || (city is Some && state is Some)))
            &&& country matches Some(co) ==> d.location matches Some(l) && l.len() >= co.len()
                && l.skip(l.len() - co.len()) == co
            &&& city matches Some(ci) ==> d.location matches Some(l) ==> l.len() >= ci.len()
                && l.take(ci.len() as int) == ci
        },
{
    if callsign_reply(callsign, nodes) is Ok {
        let c = first_element(nodes, 0, nodes.len() as int, "Callsign"@)->0;
        let end = subtree_end(nodes, c);
        let ci = field_text(nodes, c, end, "addr2"@);
        let st = field_text(nodes, c, end, "state"@);
        let co = field_text(nodes, c, end, "country"@);
        let sep = ", "@;
        match (ci, st, co) {
            (Some(a), Some(s), Some(k)) => {
                let l = a + sep + s + sep + k;
                assert(l.skip(l.len() - k.len()) == k);
                assert(l.take(a.len() as int) == a);
            },
            (Some(a), Some(s), None) => {
                let l = a + sep + s;
                assert(l.take(a.len() as int) == a);
            },
            (Some(a), None, Some(k)) => {
                let l = a + sep + k;
                assert(l.skip(l.len() - k.len()) == k);
                assert(l.take(a.len() as int) == a);
            },
            (None, Some(s), Some(k)) => {
                let l = s + sep + k;
                assert(l.skip(l.len() - k.len()) == k);
            },
            (None, None, Some(k)) => {
                assert(k.skip(0) == k);
            },
            _ => {},
        }
    }
}

/// How a QRZ.com login reply reads (see `login_nodes_reply`), or why it is
/// not XML.
pub open spec fn login_reply(xml: Seq<char>) -> Result<Seq<char>, Seq<char>> {
    match xml_document_nodes(xml) {
        Err(e) => Err("Login XML parse error: "@ + e),
        Ok(nodes) => login_nodes_reply(nodes),
    }
}

/// The nodes of a document as values.
pub open spec fn nodes_view(nodes: Seq<XmlNode>) -> Seq<NodeInfo> {
    nodes.map_values(|n: XmlNode| node_view(n))
}

/// The first element named `tag` in `nodes[lo..hi]`.
fn find_element(nodes: &Vec<XmlNode>, lo: usize, hi: usize, tag: &str) -> (r: Option<usize>)
    requires
        lo <= hi <= nodes@.len(),
    ensures
        r is Some <==> first_element(nodes@.map_values(|n: XmlNode| node_view(n)), lo as int, hi as int, tag@) is Some,
        r matches Some(k) ==> first_element(
            nodes@.map_values(|n: XmlNode| node_view(n)),
            lo as int,
            hi as int,
            tag@,
        ) == Some(k as int) && lo <= k < hi,
{
    let ghost view = nodes@.map_values(|n: XmlNode| node_view(n));
    let mut i = lo;
    while i < hi
        invariant
            lo <= i <= hi <= nodes@.len(),
            view == nodes@.map_values(|n: XmlNode| node_view(n)),
            first_element(view, lo as int, hi as int, tag@) == first_element(view, i as int, hi as int, tag@),
        decreases hi - i,
    {
        assert(view[i as int] == node_view(nodes@[i as int]));
        if nodes[i].is_element && crate::text::same_text(nodes[i].name.as_str(), tag) {
            return Some(i);
        }
        i += 1;
    }
    None
}

/// The end of node `i`'s subtree.
fn subtree_end_of(nodes: &Vec<XmlNode>, i: usize) -> (r: usize)
    requires
        i < nodes@.len(),
    ensures
        r == subtree_end(nodes@.map_values(|n: XmlNode| node_view(n)), i as int),
        i < r <= nodes@.len(),
{
    let ghost view = nodes@.map_values(|n: XmlNode| node_view(n));
    let d = nodes[i].depth;
    assert(view[i as int].3 == d);
    let n = nodes.len();
    let mut j = i + 1;
    while j < n && nodes[j].depth > d
        invariant
            i < j <= n == nodes@.len(),
            view == nodes@.map_values(|n: XmlNode| node_view(n)),
            depth_drop(view, d, i + 1) == depth_drop(view, d, j as int),
        decreases n - j,
    {
        assert(view[j as int] == node_view(nodes@[j as int]));
        j += 1;
    }
    if j < n {
        assert(view[j as int] == node_view(nodes@[j as int]));
    }
    j
}

/// The text of the first element named `tag` in `nodes[lo..hi]`.
fn field_of(nodes: &Vec<XmlNode>, lo: usize, hi: usize, tag: &str) -> (r: Option<String>)
    requires
        lo <= hi <= nodes@.len(),
    ensures
        opt_view(r) == field_text(nodes@.map_values(|n: XmlNode| node_view(n)), lo as int, hi as int, tag@),
{
    match find_element(nodes, lo, hi, tag) {
        Some(k) => {
            assert(nodes@.map_values(|n: XmlNode| node_view(n))[k as int] == node_view(nodes@[k as int]));
            copy_opt_string(&nodes[k].text)
        },
        None => None,
    }
}


/// `a + b` as a new string.
fn join2(a: &str, b: &str) -> (r: String)
    ensures
        r@ == a@ + b@,
{
    let mut r = String::from_str(a);
    r.append(b);
    r
}

fn join_full_name(first: Option<String>, last: Option<String>) -> (r: Option<String>)
    ensures
        opt_view(r) == full_name(opt_view(first), opt_view(last)),
{
    match (first, last) {
        (Some(f), Some(n)) => {
            let mut s = join2(f.as_str(), " ");
            s.append(n.as_str());
            Some(s)
        },
        (Some(f), None) => Some(f),
        (None, Some(n)) => Some(n),
        _ => None,
    }
}

fn join_location(city: Option<String>, state: Option<String>, country: Option<String>) -> (r: Option<String>)
    ensures
        opt_view(r) == location_text(opt_view(city), opt_view(state), opt_view(country)),
{
    match (city, state, country) {
        (Some(c), Some(s), Some(co)) => {
            let mut r = join2(c.as_str(), ", ");
            r.append(s.as_str());
            r.append(", ");
            r.append(co.as_str());
            Some(r)
        },
        (Some(c), Some(s), None) => {
            let mut r = join2(c.as_str(), ", ");
            r.append(s.as_str());
            Some(r)
        },
        (Some(c), None, Some(co)) => {
            let mut r = join2(c.as_str(), ", ");
            r.append(co.as_str());
            Some(r)
        },
        (None, Some(s), Some(co)) => {
            let mut r = join2(s.as_str(), ", ");
            r.append(co.as_str());
            Some(r)
        },
        (None, None, Some(co)) => Some(co),
        _ => None,
    }
}

/// The credentials a client logs in with.
pub struct Credentials {
    pub username: Option<Seq<char>>,
    pub password: Option<Seq<char>>,
}

/// A credential as configured: kept only when it is not blank.
pub open spec fn credential(v: Option<Seq<char>>) -> Option<Seq<char>> {
    match v {
        Some(s) => if trim(s).len() > 0 {
            Some(s)
        } else {
            None
        },
        None => None,
    }
}

/// The callbook client's configuration: QRZ.com credentials, either of
/// which may be missing (then lookups are served offline).
pub struct QrzClient {
    username: Option<String>,
    password: Option<String>,
}

impl View for QrzClient {
    type V = Credentials;

    closed spec fn view(&self) -> Credentials {
        Credentials { username: opt_view(self.username), password: opt_view(self.password) }
    }
}

fn keep_credential(v: Option<String>) -> (r: Option<String>)
    ensures
        opt_view(r) == credential(opt_view(v)),
{
    match v {
        Some(s) => {
            let c = chars_of(s.as_str());
            let t = trim_chars(&c);
            if t.len() > 0 {
                Some(s)
            } else {
                None
            }
        },
        None => None,
    }
}

/// How a lookup proceeds after a step.
pub enum LookupStep {
    /// The lookup is over with this result.
    Done(Result<QrzData, String>),
    /// A session key is needed first (see `session_key_step`).
    NeedSessionKey { callsign: String },
    /// Fetch this callbook URL and hand the reply to `after_query`.
    Query { callsign: String, url: String },
}

/// How a login proceeds.
pub enum SessionStep {
    /// The cached key is still fresh.
    UseCached(String),
    /// Logging in is impossible.
    Fail(String),
    /// Fetch this login URL and hand the reply to `after_login`.
    Login { url: String },
}

/// What became of an HTTP request.
pub enum HttpOutcome {
    /// Sending failed; the error's display text.
    SendFailed(String),
    /// Reading the body failed; the error's display text.
    ReadFailed(String),
    /// The reply body.
    Body(String),
}

/// How long a session key is reused, in seconds (12 hours).
pub const SESSION_KEY_TTL_SECS: u64 = 43200;

/// A lookup step as a value.
pub enum LookupStepView {
    Done(Result<QrzDataView, Seq<char>>),
    NeedSessionKey(Seq<char>),
    Query(Seq<char>, Seq<char>),
}

impl View for LookupStep {
    type V = LookupStepView;

    open spec fn view(&self) -> LookupStepView {
        match self {
            LookupStep::Done(r) => LookupStepView::Done(result_view(*r)),
            LookupStep::NeedSessionKey { callsign } => LookupStepView::NeedSessionKey(callsign@),
            LookupStep::Query { callsign, url } => LookupStepView::Query(callsign@, url@),
        }
    }
}

/// A login step as a value.
pub enum SessionStepView {
    UseCached(Seq<char>),
    Fail(Seq<char>),
    Login(Seq<char>),
}

impl View for SessionStep {
    type V = SessionStepView;

    open spec fn view(&self) -> SessionStepView {
        match self {
            SessionStep::UseCached(k) => SessionStepView::UseCached(k@),
            SessionStep::Fail(m) => SessionStepView::Fail(m@),
            SessionStep::Login { url } => SessionStepView::Login(url@),
        }
    }
}

/// The callbook query for a callsign under a session key.
pub open spec fn lookup_url(key: Seq<char>, call: Seq<char>) -> Seq<char> {
    "https://xmldata.qrz.com/xml/current/?s="@ + key + ";callsign="@ + call
}

/// The login query for a username and password.
pub open spec fn login_url(username: Seq<char>, password: Seq<char>) -> Seq<char> {
    "https://xmldata.qrz.com/xml/current/?username="@ + username + ";password="@ + password
        + ";agent=TriviaNetDMR1.0"@
}

/// The first step of a lookup of a callsign as typed.
pub open spec fn lookup_start(c: Credentials, callsign: Seq<char>) -> LookupStepView {
    if c.username is None || c.password is None {
        LookupStepView::Done(Ok(mock_data(upper_case(trim(callsign)))))
    } else {
        LookupStepView::NeedSessionKey(upper_case(trim(callsign)))
    }
}

/// The step of a lookup once the session key is known (or not).
pub open spec fn lookup_with_key(call: Seq<char>, key: Result<Seq<char>, Seq<char>>) -> LookupStepView {
    match key {
        Err(_) => LookupStepView::Done(Ok(mock_data(call))),
        Ok(k) => LookupStepView::Query(call, lookup_url(k, call)),
    }
}

/// What a lookup answers, given the callbook's reply.
pub open spec fn lookup_reply(call: Seq<char>, outcome: HttpOutcome) -> Result<QrzDataView, Seq<char>> {
    match outcome {
        HttpOutcome::SendFailed(e) => Err("Request failed: "@ + e@),
        HttpOutcome::ReadFailed(e) => Err("Failed to read response: "@ + e@),
        HttpOutcome::Body(b) => qrz_record(call, b@),
    }
}

/// The steps of a lookup run one after the other, given the session key
/// outcome and the callbook's reply: the lookup's answer, and the URL
/// queried, if any.
pub open spec fn lookup_run(
    c: Credentials,
    callsign: Seq<char>,
    key: Result<Seq<char>, Seq<char>>,
    reply: HttpOutcome,
) -> (Result<QrzDataView, Seq<char>>, Option<Seq<char>>) {
    match lookup_start(c, callsign) {
        LookupStepView::NeedSessionKey(call) => match lookup_with_key(call, key) {
            LookupStepView::Query(call2, url) => (lookup_reply(call2, reply), Some(url)),
            LookupStepView::Done(r) => (r, None),
            LookupStepView::NeedSessionKey(_) => (Err(seq![]), None),
        },
        LookupStepView::Done(r) => (r, None),
        LookupStepView::Query(_, _) => (Err(seq![]), None),
    }
}

/// A whole lookup: offline clients, and clients that get no session key,
/// answer with the offline profile of the callsign trimmed and in upper
/// case, without a query; otherwise that callsign is queried with the key,
/// and the answer is the request's failure or the reading of the reply.
pub proof fn law_lookup_outcome(
    c: Credentials,
    callsign: Seq<char>,
    key: Result<Seq<char>, Seq<char>>,
    reply: HttpOutcome,
)
    ensures
        ({
            let call = upper_case(trim(callsign));
            let (answer, url) = lookup_run(c, callsign, key, reply);
            if c.username is None || c.password is None || key is Err {
                &&& answer == Ok::<QrzDataView, Seq<char>>(mock_data(call))
                &&& answer->Ok_0.is_mock
                &&& url is None
            } else {
                &&& url == Some(lookup_url(key->Ok_0, call))
                &&& answer == match reply {
                    HttpOutcome::SendFailed(e) => Err("Request failed: "@ + e@),
                    HttpOutcome::ReadFailed(e) => Err("Failed to read response: "@ + e@),
                    HttpOutcome::Body(b) => qrz_record(call, b@),
                }
            }
        }),
{
}

/// How a session key is to be obtained, given the cached key and its age
/// in whole seconds.
pub open spec fn session_start(c: Credentials, cached: Option<(Seq<char>, u64)>) -> SessionStepView {
    match cached {
        Some((k, age)) if age < SESSION_KEY_TTL_SECS => SessionStepView::UseCached(k),
        _ => match (c.username, c.password) {
            (None, _) => SessionStepView::Fail("No QRZ username"@),
            (Some(_), None) => SessionStepView::Fail("No QRZ password"@),
            (Some(u), Some(p)) => SessionStepView::Login(login_url(u, p)),
        },
    }
}

/// What the reply to a login request gives.
pub open spec fn login_outcome(outcome: HttpOutcome) -> Result<Seq<char>, Seq<char>> {
    match outcome {
        HttpOutcome::SendFailed(e) => Err("Login request failed: "@ + e@),
        HttpOutcome::ReadFailed(e) => Err("Login failed to read: "@ + e@),
        HttpOutcome::Body(b) => login_reply(b@),
    }
}

/// The session cache after a login answered `r` at time `now`.
pub open spec fn cache_after_login<T>(cache: Option<(Seq<char>, T)>, now: T, r: Result<Seq<char>, Seq<char>>) -> Option<
    (Seq<char>, T),
> {
    match r {
        Ok(k) => Some((k, now)),
        Err(_) => cache,
    }
}

/// A session cache as values.
pub open spec fn cache_view<T>(cache: Option<(String, T)>) -> Option<(Seq<char>, T)> {
    match cache {
        Some((k, t)) => Some((k@, t)),
        None => None,
    }
}

/// The steps of obtaining a session key run one after the other, given
/// the cached key with its age and time, the time now and the login reply:
/// the key or error, the login URL requested, if any, and the cache after.
pub open spec fn session_key_run<T>(
    c: Credentials,
    cached: Option<(Seq<char>, u64)>,
    cache: Option<(Seq<char>, T)>,
    now: T,
    reply: HttpOutcome,
) -> (Result<Seq<char>, Seq<char>>, Option<Seq<char>>, Option<(Seq<char>, T)>) {
    match session_start(c, cached) {
        SessionStepView::UseCached(k) => (Ok(k), None, cache),
        SessionStepView::Fail(m) => (Err(m), None, cache),
        SessionStepView::Login(url) => (
            login_outcome(reply),
            Some(url),
            cache_after_login(cache, now, login_outcome(reply)),
        ),
    }
}

/// Obtaining a session key as a whole: a cached key younger than 12 hours
/// is returned with no request and the cache untouched; otherwise, with
/// both credentials, one login request is made, and a key in its reply is
/// returned and cached with the time now, while a failed login leaves the
/// cache as it was; a missing credential fails before any request.
pub proof fn law_session_key_outcome<T>(
    c: Credentials,
    cached: Option<(Seq<char>, u64)>,
    cache: Option<(Seq<char>, T)>,
    now: T,
    reply: HttpOutcome,
)
    ensures
        ({
            let (key, url, after) = session_key_run(c, cached, cache, now, reply);
            let fresh = match cached {
                Some((_, age)) => age < SESSION_KEY_TTL_SECS,
                None => false,
            };
            if fresh {
                key == Ok::<Seq<char>, Seq<char>>(cached.unwrap().0) && url is None && after == cache
            } else if c.username is None {
                key == Err::<Seq<char>, Seq<char>>("No QRZ username"@) && url is None && after == cache
            } else if c.password is None {
                key == Err::<Seq<char>, Seq<char>>("No QRZ password"@) && url is None && after == cache
            } else {
                &&& url == Some(login_url(c.username->0, c.password->0))
                &&& key == login_outcome(reply)
                &&& after == match key {
                    Ok(k) => Some((k, now)),
                    Err(_) => cache,
                }
            }
        }),
{
}

/// A string result as a value.
pub open spec fn text_result_view(r: Result<String, String>) -> Result<Seq<char>, Seq<char>> {
    match r {
        Ok(k) => Ok(k@),
        Err(e) => Err(e@),
    }
}

impl QrzClient {
    /// A client with the given credentials (as read from the environment);
    /// blank ones count as missing.
    pub fn new(username: Option<String>, password: Option<String>) -> (c: Self)
        ensures
            c@.username == credential(opt_view(username)),
            c@.password == credential(opt_view(password)),
    {
        QrzClient { username: keep_credential(username), password: keep_credential(password) }
    }

    /// Whether lookups are served offline (a credential is missing).
    pub fn is_mocked(&self) -> (b: bool)
        ensures
            b == (self@.username is None || self@.password is None),
    {
        self.username.is_none() || self.password.is_none()
    }

    /// Generates a region-appropriate offline profile for a callsign.
    pub fn get_mock_data(callsign: &str) -> (d: QrzData)
        ensures
            d@ == mock_data(callsign@),
            is_ascii_text(callsign@) ==> d@.callsign == ascii_upper(trim(callsign@)),
    {
        let call = normalize_callsign(callsign);
        let chars = chars_of(call.as_str());
        let (name, location) = profile_for(&chars);
        QrzData {
            callsign: call,
            name: Some(String::from_str(name)),
            location: Some(String::from_str(location)),
            is_mock: true,
        }
    }

    /// Reads a QRZ.com callsign reply for `callsign`.
    pub fn parse_qrz_xml(callsign: &str, xml: &str) -> (r: Result<QrzData, String>)
        ensures
            result_view(r) == qrz_record(callsign@, xml@),
    {
        match parse_xml_nodes(xml) {
            Ok(nodes) => Self::read_callsign_reply(callsign, &nodes),
            Err(e) => Err(join2("XML parse error: ", e.as_str())),
        }
    }

    /// Reads the nodes of a QRZ.com callsign reply for `callsign`.
    pub fn read_callsign_reply(callsign: &str, nodes: &Vec<XmlNode>) -> (r: Result<QrzData, String>)
        ensures
            result_view(r) == callsign_reply(callsign@, nodes_view(nodes@)),
    {
        let ghost view = nodes@.map_values(|n: XmlNode| node_view(n));
        let n = nodes.len();
        if let Some(i) = find_element(nodes, 0, n, "Error") {
            assert(view[i as int] == node_view(nodes@[i as int]));
            let err_txt = match &nodes[i].text {
                Some(t) => t.clone(),
                None => String::from_str("Unknown error"),
            };
            let chars = chars_of(err_txt.as_str());
            let timeout = chars_of("Session Timeout");
            let missing = chars_of("not found");
            if contains_chars(&chars, &timeout) || contains_chars(&chars, &missing) {
                return Err(err_txt);
            }
        }
        let c = match find_element(nodes, 0, n, "Callsign") {
            Some(c) => c,
            None => {
                let mut msg = join2("Callsign ", callsign);
                msg.append(" not found in QRZ database");
                return Err(msg);
            },
        };
        let end = subtree_end_of(nodes, c);
        let fname = field_of(nodes, c, end, "fname");
        let name = field_of(nodes, c, end, "name");
        let addr2 = field_of(nodes, c, end, "addr2");
        let state = field_of(nodes, c, end, "state");
        let country = field_of(nodes, c, end, "country");
        Ok(
            QrzData {
                callsign: String::from_str(callsign),
                name: join_full_name(fname, name),
                location: join_location(addr2, state, country),
                is_mock: false,
            },
        )
    }

    /// Starts a lookup of a callsign as typed: offline clients answer at
    /// once with the offline profile; others need a session key first.
    pub fn begin_lookup(&self, callsign: &str) -> (s: LookupStep)
        ensures
            s@ == lookup_start(self@, callsign@),
    {
        let call_upper = normalize_callsign(callsign);
        if self.is_mocked() {
            return LookupStep::Done(Ok(Self::get_mock_data(call_upper.as_str())));
        }
        LookupStep::NeedSessionKey { callsign: call_upper }
    }

    /// Continues a lookup once the session key is known (or not): without
    /// a key the offline profile answers; with one, the callbook is
    /// queried.
    pub fn after_session_key(callsign: &str, key: Result<String, String>) -> (s: LookupStep)
        ensures
            s@ == lookup_with_key(callsign@, text_result_view(key)),
    {
        match key {
            Err(_) => {
                let mut mock = Self::get_mock_data(callsign);
                mock.is_mock = true;
                LookupStep::Done(Ok(mock))
            },
            Ok(k) => {
                let mut url = join2("https://xmldata.qrz.com/xml/current/?s=", k.as_str());
                url.append(";callsign=");
                url.append(callsign);
                LookupStep::Query { callsign: String::from_str(callsign), url }
            },
        }
    }

    /// Finishes a lookup with the callbook's reply.
    pub fn after_query(callsign: &str, outcome: HttpOutcome) -> (r: Result<QrzData, String>)
        ensures
            result_view(r) == lookup_reply(callsign@, outcome),
    {
        match outcome {
            HttpOutcome::SendFailed(e) => Err(join2("Request failed: ", e.as_str())),
            HttpOutcome::ReadFailed(e) => Err(join2("Failed to read response: ", e.as_str())),
            HttpOutcome::Body(b) => Self::parse_qrz_xml(callsign, b.as_str()),
        }
    }

    /// Decides how to obtain a session key, given the cached key and its
    /// age in whole seconds: reuse it while younger than 12 hours, else
    /// log in with the credentials.
    pub fn session_key_step(&self, cached: Option<(String, u64)>) -> (s: SessionStep)
        ensures
            s@ == session_start(self@, cache_view(cached)),
    {
        if let Some((k, age)) = cached {
            if age < SESSION_KEY_TTL_SECS {
                return SessionStep::UseCached(k);
            }
        }
        match (&self.username, &self.password) {
            (None, _) => SessionStep::Fail(String::from_str("No QRZ username")),
            (Some(_), None) => SessionStep::Fail(String::from_str("No QRZ password")),
            (Some(u), Some(p)) => {
                let mut url = join2("https://xmldata.qrz.com/xml/current/?username=", u.as_str());
                url.append(";password=");
                url.append(p.as_str());
                url.append(";agent=TriviaNetDMR1.0");
                SessionStep::Login { url }
            },
        }
    }

    /// Reads the reply to a login request.
    pub fn after_login(outcome: HttpOutcome) -> (r: Result<String, String>)
        ensures
            text_result_view(r) == login_outcome(outcome),
    {
        match outcome {
            HttpOutcome::SendFailed(e) => Err(join2("Login request failed: ", e.as_str())),
            HttpOutcome::ReadFailed(e) => Err(join2("Login failed to read: ", e.as_str())),
            HttpOutcome::Body(b) => Self::parse_login_xml(b.as_str()),
        }
    }

    /// Reads the reply to a login request and, when it gives a key, stores
    /// that key in the session cache with the time `now`; a failed login
    /// leaves the cache as it was.
    pub fn after_login_cached<T>(outcome: HttpOutcome, now: T, cache: &mut Option<(String, T)>) -> (r: Result<
        String,
        String,
    >)
        ensures
            text_result_view(r) == login_outcome(outcome),
            cache_view(*final(cache)) == cache_after_login(cache_view(*old(cache)), now, text_result_view(r)),
            match r {
                Ok(k) => *final(cache) matches Some((ck, t)) && ck@ == k@ && t == now,
                Err(_) => *final(cache) == *old(cache),
            },
    {
        let r = Self::after_login(outcome);
        if let Ok(k) = &r {
            *cache = Some((k.clone(), now));
        }
        r
    }

    /// Reads a QRZ.com login reply: the session key, or why there is none.
    pub fn parse_login_xml(xml: &str) -> (r: Result<String, String>)
        ensures
            text_result_view(r) == login_reply(xml@),
    {
        match parse_xml_nodes(xml) {
            Ok(nodes) => Self::read_login_reply(&nodes),
            Err(e) => Err(join2("Login XML parse error: ", e.as_str())),
        }
    }

    /// Reads the nodes of a QRZ.com login reply.
    pub fn read_login_reply(nodes: &Vec<XmlNode>) -> (r: Result<String, String>)
        ensures
            text_result_view(r) == login_nodes_reply(nodes_view(nodes@)),
    {
        let ghost view = nodes@.map_values(|n: XmlNode| node_view(n));
        let n = nodes.len();
        if let Some(i) = find_element(nodes, 0, n, "Error") {
            assert(view[i as int] == node_view(nodes@[i as int]));
            return match &nodes[i].text {
                Some(t) => Err(t.clone()),
                None => Err(String::from_str("Unknown login error")),
            };
        }
        match find_element(nodes, 0, n, "Key") {
            None => Err(String::from_str("No Session Key found in login XML")),
            Some(k) => {
                assert(view[k as int] == node_view(nodes@[k as int]));
                match &nodes[k].text {
                    None => Err(String::from_str("Empty Session Key")),
                    Some(t) => Ok(t.clone()),
                }
            },
        }
    }
}

} // verus!
