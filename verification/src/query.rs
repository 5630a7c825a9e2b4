//! Parsing the input-device registry.
//!
//! The registry is a flat text resource: blocks separated by a blank
//! line, each block a sequence of lines of the form
//! `<letter>: <content>`.  The letter dispatches the field: `I` the
//! four hex identifiers, `N` the quoted name, `P` and `S` the
//! physical and sysfs paths, `H` the capability-handler names, `B` a
//! named bitmap of hex words.  Unrecognized letters are kept verbatim
//! so that future fields do not silently disappear.

use vstd::prelude::*;

use crate::strutil::{
    eq_ascii_lower, is_blank, is_blank_spec, lines_spec, lines_str, lower_seq, parse_uint,
    parse_uint_spec, split_blocks_spec, split_blocks_str, split_once_char, split_once_spec,
    split_ws_spec, split_ws_str, str_eq,
};

verus! {

/// Why a registry query failed.
#[derive(Debug)]
pub enum QueryError {
    /// The text broke the record grammar; the message names the field.
    Malformed(&'static str),
    /// Reading the registry failed; the message is the I/O error's.
    IoError(String),
}

/// A registry line whose letter the parser does not recognize,
/// preserved verbatim.
#[derive(Debug, Clone)]
pub struct UnparsedQueryDeviceProperty {
    pub ident: char,
    pub content: String,
}

/// Mathematical view of an unrecognized property.
pub struct PropView {
    pub ident: char,
    pub content: Seq<char>,
}

impl View for UnparsedQueryDeviceProperty {
    type V = PropView;

    open spec fn view(&self) -> PropView {
        PropView { ident: self.ident, content: self.content@ }
    }
}

impl DeepView for UnparsedQueryDeviceProperty {
    type V = PropView;

    open spec fn deep_view(&self) -> PropView {
        self.view()
    }
}

/// One raw record of the registry.
#[derive(Debug, Clone)]
pub struct QueryDevice {
    pub id_bus_type: u16,
    pub id_vendor: u16,
    pub id_product: u16,
    pub id_version: u16,

    pub name: String,
    pub physical_path: String,
    pub sys_path: String,
    pub handlers: Vec<String>,
    /// Named bitmaps, in line order; names are unique, a duplicate
    /// name is a parse error.
    pub bitmaps: Vec<(String, Vec<u64>)>,

    pub unparsed_properties: Vec<UnparsedQueryDeviceProperty>,
}

/// Mathematical view of one record.
pub struct QueryDeviceView {
    pub id_bus_type: u16,
    pub id_vendor: u16,
    pub id_product: u16,
    pub id_version: u16,
    pub name: Seq<char>,
    pub physical_path: Seq<char>,
    pub sys_path: Seq<char>,
    pub handlers: Seq<Seq<char>>,
    pub bitmaps: Seq<(Seq<char>, Seq<u64>)>,
    pub unparsed: Seq<PropView>,
}

impl View for QueryDevice {
    type V = QueryDeviceView;

    open spec fn view(&self) -> QueryDeviceView {
        QueryDeviceView {
            id_bus_type: self.id_bus_type,
            id_vendor: self.id_vendor,
            id_product: self.id_product,
            id_version: self.id_version,
            name: self.name@,
            physical_path: self.physical_path@,
            sys_path: self.sys_path@,
            handlers: self.handlers.deep_view(),
            bitmaps: self.bitmaps.deep_view(),
            unparsed: self.unparsed_properties.deep_view(),
        }
    }
}

impl DeepView for QueryDevice {
    type V = QueryDeviceView;

    open spec fn deep_view(&self) -> QueryDeviceView {
        self.view()
    }
}

/// An ASCII letter.
pub open spec fn is_ascii_letter(c: char) -> bool {
    ('a' <= c && c <= 'z') || ('A' <= c && c <= 'Z')
}

/// A registry line is a letter, a colon, and content.
pub open spec fn prop_line_ok(l: Seq<char>) -> bool {
    l.len() >= 2 && is_ascii_letter(l[0]) && l[1] == ':'
}

/// The content of a registry line: what follows the colon, less one
/// optional space.
pub open spec fn prop_content_of(l: Seq<char>) -> Seq<char> {
    if l.len() >= 3 && l[2] == ' ' { l.skip(3) } else { l.skip(2) }
}

/// Letter and content of a well-formed registry line.
pub open spec fn prop_of_line(l: Seq<char>) -> PropView {
    PropView { ident: l[0], content: prop_content_of(l) }
}

impl UnparsedQueryDeviceProperty {
    /// Splits one registry line into its letter and content.
    pub fn parse(line: &str) -> (r: Result<UnparsedQueryDeviceProperty, QueryError>)
        ensures
            match r {
                Ok(p) => prop_line_ok(line@) && p@ == prop_of_line(line@),
                Err(e) => !prop_line_ok(line@) && (e matches QueryError::Malformed(_)),
            },
    {
        let n = line.unicode_len();
        if n < 2 {
            return Err(QueryError::Malformed("Malformed device property"));
        }
        let c0 = line.get_char(0);
        let v0 = c0 as u32;
        let letter = (v0 >= 97 && v0 <= 122) || (v0 >= 65 && v0 <= 90);
        if !letter || line.get_char(1) != ':' {
            return Err(QueryError::Malformed("Malformed device property"));
        }
        let start: usize = if n >= 3 && line.get_char(2) == ' ' { 3 } else { 2 };
        let content = line.substring_char(start, n);
        proof {
            assert(content@ =~= prop_content_of(line@));
        }
        Ok(UnparsedQueryDeviceProperty { ident: c0, content: content.to_owned() })
    }
}

/// The four identifier fields of an `I` line while it is folded.
pub struct IdQuad {
    pub bus: Option<u16>,
    pub vendor: Option<u16>,
    pub product: Option<u16>,
    pub version: Option<u16>,
}

/// Applies one whitespace-separated `key=hexvalue` token of an `I`
/// line.  Tokens without `=`, with an unknown key, or with a value
/// that is no hex `u16` are ignored; a later token overwrites an
/// earlier one with the same key.
pub open spec fn apply_id_token(q: IdQuad, tok: Seq<char>) -> IdQuad {
    match split_once_spec(tok, '=') {
        None => q,
        Some((n, v)) => match parse_uint_spec(v, 16, 0xFFFF) {
            None => q,
            Some(val) => {
                let key = lower_seq(n);
                if key == "bus"@ {
                    IdQuad { bus: Some(val as u16), ..q }
                } else if key == "vendor"@ {
                    IdQuad { vendor: Some(val as u16), ..q }
                } else if key == "product"@ {
                    IdQuad { product: Some(val as u16), ..q }
                } else if key == "version"@ {
                    IdQuad { version: Some(val as u16), ..q }
                } else {
                    q
                }
            },
        },
    }
}

/// Folds all tokens of an `I` line.
pub open spec fn fold_id_tokens(q: IdQuad, toks: Seq<Seq<char>>) -> IdQuad
    decreases toks.len(),
{
    if toks.len() == 0 {
        q
    } else {
        fold_id_tokens(apply_id_token(q, toks[0]), toks.skip(1))
    }
}

/// Parses the content of an `I` line; all four fields are required.
pub open spec fn parse_id_content(c: Seq<char>) -> Option<(u16, u16, u16, u16)> {
    let q = fold_id_tokens(
        IdQuad { bus: None, vendor: None, product: None, version: None },
        split_ws_spec(c),
    );
    if q.bus is Some && q.vendor is Some && q.product is Some && q.version is Some {
        Some((q.bus->0, q.vendor->0, q.product->0, q.version->0))
    } else {
        None
    }
}

/// Parses the content of an `N` line: `name="<anything>"`, the key
/// case-insensitive.
pub open spec fn parse_name_content(c: Seq<char>) -> Option<Seq<char>> {
    if c.len() >= 7 && lower_seq(c.take(4)) == "name"@ && c[4] == '=' && c[5] == '"'
        && c[c.len() - 1] == '"' {
        Some(c.subrange(6, c.len() - 1))
    } else {
        None
    }
}

/// Parses the content of a `P` line: `phys=<path>`, the key
/// case-insensitive.
pub open spec fn parse_phys_content(c: Seq<char>) -> Option<Seq<char>> {
    if c.len() >= 5 && lower_seq(c.take(4)) == "phys"@ && c[4] == '=' {
        Some(c.skip(5))
    } else {
        None
    }
}

/// Parses the content of an `S` line: `sysfs=<path>`, the key
/// case-insensitive.
pub open spec fn parse_sys_content(c: Seq<char>) -> Option<Seq<char>> {
    if c.len() >= 6 && lower_seq(c.take(5)) == "sysfs"@ && c[5] == '=' {
        Some(c.skip(6))
    } else {
        None
    }
}

/// Parses the content of an `H` line: everything after the first `=`,
/// split on whitespace.
pub open spec fn parse_handlers_content(c: Seq<char>) -> Option<Seq<Seq<char>>> {
    match split_once_spec(c, '=') {
        None => None,
        Some((_n, hs)) => Some(split_ws_spec(hs)),
    }
}

/// Parses the whitespace-separated hex words of a `B` line.
pub open spec fn parse_bits_tokens(toks: Seq<Seq<char>>) -> Option<Seq<u64>>
    decreases toks.len(),
{
    if toks.len() == 0 {
        Some(Seq::<u64>::empty())
    } else {
        match parse_uint_spec(toks[0], 16, 0xFFFF_FFFF_FFFF_FFFF) {
            None => None,
            Some(v) => match parse_bits_tokens(toks.skip(1)) {
                None => None,
                Some(rest) => Some(seq![v as u64] + rest),
            },
        }
    }
}

/// The partial record while its lines are folded.
pub struct RecView {
    pub id: Option<(u16, u16, u16, u16)>,
    pub name: Option<Seq<char>>,
    pub phys: Option<Seq<char>>,
    pub sys: Option<Seq<char>>,
    pub handlers: Option<Seq<Seq<char>>>,
    pub bitmaps: Seq<(Seq<char>, Seq<u64>)>,
    pub unparsed: Seq<PropView>,
}

/// The state before any line was folded.
pub open spec fn init_rec() -> RecView {
    RecView {
        id: None,
        name: None,
        phys: None,
        sys: None,
        handlers: None,
        bitmaps: Seq::empty(),
        unparsed: Seq::empty(),
    }
}

/// Whether a bitmap with this name was already seen.
pub open spec fn has_bitmap(bm: Seq<(Seq<char>, Seq<u64>)>, name: Seq<char>) -> bool {
    exists|k: int| 0 <= k < bm.len() && (#[trigger] bm[k]).0 == name
}

/// Applies one parsed line to the partial record.  A later `I`, `N`,
/// `P`, `S` or `H` line overwrites an earlier one; `B` lines
/// accumulate, a repeated bitmap name is an error; any other letter
/// is preserved verbatim.
pub open spec fn apply_prop(st: RecView, p: PropView) -> Result<RecView, ()> {
    if p.ident == 'I' {
        match parse_id_content(p.content) {
            None => Err(()),
            Some(q) => Ok(RecView { id: Some(q), ..st }),
        }
    } else if p.ident == 'N' {
        match parse_name_content(p.content) {
            None => Err(()),
            Some(nm) => Ok(RecView { name: Some(nm), ..st }),
        }
    } else if p.ident == 'P' {
        match parse_phys_content(p.content) {
            None => Err(()),
            Some(ph) => Ok(RecView { phys: Some(ph), ..st }),
        }
    } else if p.ident == 'S' {
        match parse_sys_content(p.content) {
            None => Err(()),
            Some(sp) => Ok(RecView { sys: Some(sp), ..st }),
        }
    } else if p.ident == 'H' {
        match parse_handlers_content(p.content) {
            None => Err(()),
            Some(hs) => Ok(RecView { handlers: Some(hs), ..st }),
        }
    } else if p.ident == 'B' {
        match split_once_spec(p.content, '=') {
            None => Err(()),
            Some((bn, bv)) => {
                if has_bitmap(st.bitmaps, bn) {
                    Err(())
                } else {
                    match parse_bits_tokens(split_ws_spec(bv)) {
                        None => Err(()),
                        Some(vals) => Ok(
                            RecView { bitmaps: st.bitmaps.push((bn, vals)), ..st },
                        ),
                    }
                }
            },
        }
    } else {
        Ok(RecView { unparsed: st.unparsed.push(p), ..st })
    }
}

/// Folds all parsed lines of a block, stopping at the first error.
pub open spec fn fold_props(st: RecView, props: Seq<PropView>) -> Result<RecView, ()>
    decreases props.len(),
{
    if props.len() == 0 {
        Ok(st)
    } else {
        match apply_prop(st, props[0]) {
            Err(e) => Err(e),
            Ok(st2) => fold_props(st2, props.skip(1)),
        }
    }
}

/// Closes a folded record: `I` and `N` are required; a missing path
/// defaults to empty, missing handlers to none.
pub open spec fn finish_record(st: RecView) -> Result<QueryDeviceView, ()> {
    if st.id is None || st.name is None {
        Err(())
    } else {
        let quad = st.id->0;
        Ok(QueryDeviceView {
            id_bus_type: quad.0,
            id_vendor: quad.1,
            id_product: quad.2,
            id_version: quad.3,
            name: st.name->0,
            physical_path: match st.phys { Some(p) => p, None => Seq::empty() },
            sys_path: match st.sys { Some(p) => p, None => Seq::empty() },
            handlers: match st.handlers { Some(h) => h, None => Seq::empty() },
            bitmaps: st.bitmaps,
            unparsed: st.unparsed,
        })
    }
}

/// What parsing one block of the registry yields.
pub open spec fn parse_record_spec(block: Seq<char>) -> Result<QueryDeviceView, ()> {
    let ls = lines_spec(block);
    if !(forall|i: int| 0 <= i < ls.len() ==> prop_line_ok(#[trigger] ls[i])) {
        Err(())
    } else {
        let props = ls.map_values(|l: Seq<char>| prop_of_line(l));
        match fold_props(init_rec(), props) {
            Err(e) => Err(e),
            Ok(st) => finish_record(st),
        }
    }
}

/// Folds the blocks of the whole registry text, skipping blank
/// blocks, stopping at the first malformed record.
pub open spec fn parse_blocks(bs: Seq<Seq<char>>) -> Result<Seq<QueryDeviceView>, ()>
    decreases bs.len(),
{
    if bs.len() == 0 {
        Ok(Seq::<QueryDeviceView>::empty())
    } else if is_blank_spec(bs[0]) {
        parse_blocks(bs.skip(1))
    } else {
        match parse_record_spec(bs[0]) {
            Err(e) => Err(e),
            Ok(d) => match parse_blocks(bs.skip(1)) {
                Err(e) => Err(e),
                Ok(rest) => Ok(seq![d] + rest),
            },
        }
    }
}

/// What parsing the whole registry text yields: blocks are separated
/// by a blank line, whitespace-only blocks are skipped.
pub open spec fn parse_query_spec(text: Seq<char>) -> Result<Seq<QueryDeviceView>, ()> {
    parse_blocks(split_blocks_spec(text))
}

/// Parses the content of an `I` line.
fn parse_id_content_exec(content: &str) -> (r: Option<(u16, u16, u16, u16)>)
    ensures
        r == parse_id_content(content@),
{
    let toks = split_ws_str(content);
    let ghost toksv = toks.deep_view();
    let mut q = (None::<u16>, None::<u16>, None::<u16>, None::<u16>);
    proof {
        assert(toksv.skip(0) =~= toksv);
    }
    let mut i: usize = 0;
    while i < toks.len()
        invariant
            toksv == toks.deep_view(),
            toksv == split_ws_spec(content@),
            i <= toks.len(),
            toks.len() == toksv.len(),
            fold_id_tokens(
                IdQuad { bus: None, vendor: None, product: None, version: None },
                toksv,
            ) == fold_id_tokens(
                IdQuad { bus: q.0, vendor: q.1, product: q.2, version: q.3 },
                toksv.skip(i as int),
            ),
        decreases toks.len() - i,
    {
        let ghost pre = IdQuad { bus: q.0, vendor: q.1, product: q.2, version: q.3 };
        let tok = &toks[i];
        proof {
            assert(tok@ == toksv[i as int]);
        }
        match split_once_char(tok.as_str(), '=') {
            None => {},
            Some((nm, vs)) => {
                match parse_uint(vs.as_str(), 16, 0xFFFF) {
                    None => {},
                    Some(v) => {
                        let vv = v as u16;
                        if eq_ascii_lower(nm.as_str(), "bus") {
                            q.0 = Some(vv);
                        } else if eq_ascii_lower(nm.as_str(), "vendor") {
                            q.1 = Some(vv);
                        } else if eq_ascii_lower(nm.as_str(), "product") {
                            q.2 = Some(vv);
                        } else if eq_ascii_lower(nm.as_str(), "version") {
                            q.3 = Some(vv);
                        }
                    },
                }
            },
        }
        proof {
            let cur = IdQuad { bus: q.0, vendor: q.1, product: q.2, version: q.3 };
            assert(cur == apply_id_token(pre, toksv[i as int]));
            let rem = toksv.skip(i as int);
            assert(rem[0] == toksv[i as int]);
            assert(rem.skip(1) =~= toksv.skip(i as int + 1));
        }
        i = i + 1;
    }
    proof {
        assert(toksv.skip(toksv.len() as int) =~= Seq::<Seq<char>>::empty());
    }
    match q {
        (Some(b), Some(vd), Some(p), Some(vr)) => Some((b, vd, p, vr)),
        _ => None,
    }
}

/// Parses the content of an `N` line.
fn parse_name_line(content: &str) -> (r: Option<String>)
    ensures
        match r {
            Some(nm) => parse_name_content(content@) == Some(nm@),
            None => parse_name_content(content@) is None,
        },
{
    let n = content.unicode_len();
    if n < 7 {
        return None;
    }
    let head = content.substring_char(0, 4);
    proof {
        assert(head@ =~= content@.take(4));
    }
    if !eq_ascii_lower(head, "name") {
        return None;
    }
    if content.get_char(4) != '=' || content.get_char(5) != '"' || content.get_char(n - 1) != '"' {
        return None;
    }
    let mid = content.substring_char(6, n - 1);
    proof {
        assert(mid@ =~= content@.subrange(6, content@.len() - 1));
    }
    Some(mid.to_owned())
}

/// Parses the content of a `P` line.
fn parse_phys_line(content: &str) -> (r: Option<String>)
    ensures
        match r {
            Some(p) => parse_phys_content(content@) == Some(p@),
            None => parse_phys_content(content@) is None,
        },
{
    let n = content.unicode_len();
    if n < 5 {
        return None;
    }
    let head = content.substring_char(0, 4);
    proof {
        assert(head@ =~= content@.take(4));
    }
    if !eq_ascii_lower(head, "phys") {
        return None;
    }
    if content.get_char(4) != '=' {
        return None;
    }
    let rest = content.substring_char(5, n);
    proof {
        assert(rest@ =~= content@.skip(5));
    }
    Some(rest.to_owned())
}

/// Parses the content of an `S` line.
fn parse_sys_line(content: &str) -> (r: Option<String>)
    ensures
        match r {
            Some(p) => parse_sys_content(content@) == Some(p@),
            None => parse_sys_content(content@) is None,
        },
{
    let n = content.unicode_len();
    if n < 6 {
        return None;
    }
    let head = content.substring_char(0, 5);
    proof {
        assert(head@ =~= content@.take(5));
    }
    if !eq_ascii_lower(head, "sysfs") {
        return None;
    }
    if content.get_char(5) != '=' {
        return None;
    }
    let rest = content.substring_char(6, n);
    proof {
        assert(rest@ =~= content@.skip(6));
    }
    Some(rest.to_owned())
}

/// Parses the content of an `H` line.
fn parse_handlers_line(content: &str) -> (r: Option<Vec<String>>)
    ensures
        match r {
            Some(hs) => parse_handlers_content(content@) == Some(hs.deep_view()),
            None => parse_handlers_content(content@) is None,
        },
{
    match split_once_char(content, '=') {
        None => None,
        Some((_n, hs)) => Some(split_ws_str(hs.as_str())),
    }
}

/// Parses the hex words of a `B` line.
fn parse_bits_values(vs: &str) -> (r: Option<Vec<u64>>)
    ensures
        match r {
            Some(vals) => parse_bits_tokens(split_ws_spec(vs@)) == Some(vals@),
            None => parse_bits_tokens(split_ws_spec(vs@)) is None,
        },
{
    let toks = split_ws_str(vs);
    let ghost toksv = toks.deep_view();
    let mut out: Vec<u64> = Vec::new();
    proof {
        assert(toksv.skip(0) =~= toksv);
        if let Some(rest) = parse_bits_tokens(toksv) {
            assert(out@ + rest =~= rest);
        }
    }
    let mut i: usize = 0;
    while i < toks.len()
        invariant
            toksv == toks.deep_view(),
            toksv == split_ws_spec(vs@),
            i <= toks.len(),
            toks.len() == toksv.len(),
            parse_bits_tokens(toksv) == (match parse_bits_tokens(toksv.skip(i as int)) {
                None => None::<Seq<u64>>,
                Some(rest) => Some(out@ + rest),
            }),
        decreases toks.len() - i,
    {
        let tok = &toks[i];
        proof {
            assert(tok@ == toksv[i as int]);
            let rem = toksv.skip(i as int);
            assert(rem[0] == toksv[i as int]);
            assert(rem.skip(1) =~= toksv.skip(i as int + 1));
        }
        match parse_uint(tok.as_str(), 16, 0xFFFF_FFFF_FFFF_FFFF) {
            None => {
                return None;
            },
            Some(v) => {
                let ghost prev = out@;
                out.push(v);
                proof {
                    if let Some(rest) = parse_bits_tokens(toksv.skip(i as int + 1)) {
                        assert(prev + (seq![v] + rest) =~= out@ + rest);
                    }
                }
            },
        }
        i = i + 1;
    }
    proof {
        assert(toksv.skip(toksv.len() as int) =~= Seq::<Seq<char>>::empty());
        assert(out@ + Seq::<u64>::empty() =~= out@);
    }
    Some(out)
}

/// Whether a bitmap with this name is already recorded.
fn bitmaps_contain(bm: &Vec<(String, Vec<u64>)>, name: &str) -> (r: bool)
    ensures
        r == has_bitmap(bm.deep_view(), name@),
{
    let mut k: usize = 0;
    while k < bm.len()
        invariant
            k <= bm.len(),
            forall|j: int| 0 <= j < k ==> (#[trigger] bm.deep_view()[j]).0 != name@,
        decreases bm.len() - k,
    {
        if str_eq(bm[k].0.as_str(), name) {
            proof {
                assert((bm.deep_view()[k as int]).0 == name@);
            }
            return true;
        }
        k = k + 1;
    }
    false
}

impl QueryDevice {
    /// Parses one block of the registry into a record.
    ///
    /// The block is split into lines; every line must fit the
    /// `<letter>: <content>` grammar, and the `I` and `N` fields are
    /// required.  The error names the first field that broke.
    pub fn parse(block: &str) -> (r: Result<QueryDevice, QueryError>)
        ensures
            match r {
                Ok(d) => parse_record_spec(block@) == Ok::<QueryDeviceView, ()>(d@),
                Err(e) => parse_record_spec(block@) is Err && (e matches QueryError::Malformed(
                    _,
                )),
            },
    {
        let ls = lines_str(block);
        let ghost lsv = ls.deep_view();
        let ghost props = lsv.map_values(|l: Seq<char>| prop_of_line(l));

        let mut id: Option<(u16, u16, u16, u16)> = None;
        let mut name: Option<String> = None;
        let mut phys: Option<String> = None;
        let mut sys: Option<String> = None;
        let mut handlers: Option<Vec<String>> = None;
        let mut bitmaps: Vec<(String, Vec<u64>)> = Vec::new();
        let mut unparsed: Vec<UnparsedQueryDeviceProperty> = Vec::new();

        proof {
            assert(props.skip(0) =~= props);
            assert(bitmaps.deep_view() =~= Seq::<(Seq<char>, Seq<u64>)>::empty());
            assert(unparsed.deep_view() =~= Seq::<PropView>::empty());
        }
        let mut i: usize = 0;
        while i < ls.len()
            invariant
                lsv == ls.deep_view(),
                lsv == lines_spec(block@),
                ls.len() == lsv.len(),
                props == lsv.map_values(|l: Seq<char>| prop_of_line(l)),
                i <= ls.len(),
                forall|j: int| 0 <= j < i ==> prop_line_ok(#[trigger] lsv[j]),
                fold_props(init_rec(), props) == fold_props(
                    RecView {
                        id: id,
                        name: name.deep_view(),
                        phys: phys.deep_view(),
                        sys: sys.deep_view(),
                        handlers: handlers.deep_view(),
                        bitmaps: bitmaps.deep_view(),
                        unparsed: unparsed.deep_view(),
                    },
                    props.skip(i as int),
                ),
            decreases ls.len() - i,
        {
            let ghost pre = RecView {
                id: id,
                name: name.deep_view(),
                phys: phys.deep_view(),
                sys: sys.deep_view(),
                handlers: handlers.deep_view(),
                bitmaps: bitmaps.deep_view(),
                unparsed: unparsed.deep_view(),
            };
            let line = &ls[i];
            proof {
                assert(line@ == lsv[i as int]);
                assert(props[i as int] == prop_of_line(lsv[i as int]));
                let rem = props.skip(i as int);
                assert(rem[0] == props[i as int]);
                assert(rem.skip(1) =~= props.skip(i as int + 1));
            }
            let prop = match UnparsedQueryDeviceProperty::parse(line.as_str()) {
                Ok(p) => p,
                Err(e) => {
                    proof {
                        assert(!prop_line_ok(lsv[i as int]));
                        assert(parse_record_spec(block@) is Err);
                    }
                    return Err(e);
                },
            };
            let ghost propv = prop@;
            if prop.ident == 'I' {
                match parse_id_content_exec(prop.content.as_str()) {
                    None => {
                        proof {
                            assert(apply_prop(pre, props[i as int]) is Err);
                            assert(fold_props(init_rec(), props) is Err);
                        }
                        return Err(QueryError::Malformed("Malformed ID field"));
                    },
                    Some(quad) => {
                        id = Some(quad);
                    },
                }
            } else if prop.ident == 'N' {
                match parse_name_line(prop.content.as_str()) {
                    None => {
                        proof {
                            assert(apply_prop(pre, props[i as int]) is Err);
                            assert(fold_props(init_rec(), props) is Err);
                        }
                        return Err(QueryError::Malformed("Malformed name field"));
                    },
                    Some(nm) => {
                        name = Some(nm);
                    },
                }
            } else if prop.ident == 'P' {
                match parse_phys_line(prop.content.as_str()) {
                    None => {
                        proof {
                            assert(apply_prop(pre, props[i as int]) is Err);
                            assert(fold_props(init_rec(), props) is Err);
                        }
                        return Err(QueryError::Malformed("Malformed physical path field"));
                    },
                    Some(p) => {
                        phys = Some(p);
                    },
                }
            } else if prop.ident == 'S' {
                match parse_sys_line(prop.content.as_str()) {
                    None => {
                        proof {
                            assert(apply_prop(pre, props[i as int]) is Err);
                            assert(fold_props(init_rec(), props) is Err);
                        }
                        return Err(QueryError::Malformed("Malformed sys path field"));
                    },
                    Some(p) => {
                        sys = Some(p);
                    },
                }
            } else if prop.ident == 'H' {
                match parse_handlers_line(prop.content.as_str()) {
                    None => {
                        proof {
                            assert(apply_prop(pre, props[i as int]) is Err);
                            assert(fold_props(init_rec(), props) is Err);
                        }
                        return Err(QueryError::Malformed("Malformed handlers field"));
                    },
                    Some(hs) => {
                        handlers = Some(hs);
                    },
                }
            } else if prop.ident == 'B' {
                match split_once_char(prop.content.as_str(), '=') {
                    None => {
                        proof {
                            assert(apply_prop(pre, props[i as int]) is Err);
                            assert(fold_props(init_rec(), props) is Err);
                        }
                        return Err(QueryError::Malformed("Malformed bits field"));
                    },
                    Some((bn, bv)) => {
                        if bitmaps_contain(&bitmaps, bn.as_str()) {
                            proof {
                                assert(apply_prop(pre, props[i as int]) is Err);
                                assert(fold_props(init_rec(), props) is Err);
                            }
                            return Err(QueryError::Malformed("Duplicate bits field"));
                        }
                        match parse_bits_values(bv.as_str()) {
                            None => {
                                proof {
                                    assert(apply_prop(pre, props[i as int]) is Err);
                                    assert(fold_props(init_rec(), props) is Err);
                                }
                                return Err(QueryError::Malformed("Malformed bits field"));
                            },
                            Some(vals) => {
                                let ghost prevbm = bitmaps.deep_view();
                                let ghost bnv = bn@;
                                let ghost valsv = vals@;
                                bitmaps.push((bn, vals));
                                proof {
                                    assert(bitmaps.deep_view() =~~= prevbm.push((bnv, valsv)));
                                }
                            },
                        }
                    },
                }
            } else {
                let ghost prevup = unparsed.deep_view();
                unparsed.push(prop);
                proof {
                    assert(unparsed.deep_view() =~= prevup.push(propv));
                }
            }
            proof {
                let cur = RecView {
                    id: id,
                    name: name.deep_view(),
                    phys: phys.deep_view(),
                    sys: sys.deep_view(),
                    handlers: handlers.deep_view(),
                    bitmaps: bitmaps.deep_view(),
                    unparsed: unparsed.deep_view(),
                };
                assert(apply_prop(pre, props[i as int]) == Ok::<RecView, ()>(cur));
            }
            i = i + 1;
        }
        proof {
            assert(props.skip(props.len() as int) =~= Seq::<PropView>::empty());
        }
        let ghost fin = RecView {
            id: id,
            name: name.deep_view(),
            phys: phys.deep_view(),
            sys: sys.deep_view(),
            handlers: handlers.deep_view(),
            bitmaps: bitmaps.deep_view(),
            unparsed: unparsed.deep_view(),
        };
        proof {
            assert(fold_props(init_rec(), props) == Ok::<RecView, ()>(fin));
        }
        let quad = match id {
            None => {
                return Err(QueryError::Malformed("Required ID field is missing"));
            },
            Some(q) => q,
        };
        let name = match name {
            None => {
                return Err(QueryError::Malformed("Required name field is missing"));
            },
            Some(nm) => nm,
        };
        let physical_path = match phys {
            None => String::new(),
            Some(p) => p,
        };
        let sys_path = match sys {
            None => String::new(),
            Some(p) => p,
        };
        let handlers = match handlers {
            None => Vec::new(),
            Some(hs) => hs,
        };
        let d = QueryDevice {
            id_bus_type: quad.0,
            id_vendor: quad.1,
            id_product: quad.2,
            id_version: quad.3,
            name,
            physical_path,
            sys_path,
            handlers,
            bitmaps,
            unparsed_properties: unparsed,
        };
        proof {
            let spec_d = finish_record(fin)->Ok_0;
            assert(d@.physical_path =~= spec_d.physical_path);
            assert(d@.sys_path =~= spec_d.sys_path);
            assert(d@.handlers =~= spec_d.handlers);
            assert(d@ == spec_d);
        }
        Ok(d)
    }
}

/// Parses the whole registry text into its records.
///
/// Blocks are separated by a blank line; whitespace-only blocks are
/// skipped; the first malformed record fails the query.
pub fn parse_query_devices(text: &str) -> (r: Result<Vec<QueryDevice>, QueryError>)
    ensures
        match r {
            Ok(v) => parse_query_spec(text@) == Ok::<Seq<QueryDeviceView>, ()>(v.deep_view()),
            Err(e) => parse_query_spec(text@) is Err && (e matches QueryError::Malformed(_)),
        },
{
    let blocks = split_blocks_str(text);
    let ghost bsv = blocks.deep_view();
    let mut out: Vec<QueryDevice> = Vec::new();
    proof {
        assert(bsv.skip(0) =~= bsv);
        if let Ok(rest) = parse_blocks(bsv) {
            assert(out.deep_view() + rest =~= rest);
        }
    }
    let mut i: usize = 0;
    while i < blocks.len()
        invariant
            bsv == blocks.deep_view(),
            bsv == split_blocks_spec(text@),
            blocks.len() == bsv.len(),
            i <= blocks.len(),
            parse_blocks(bsv) == (match parse_blocks(bsv.skip(i as int)) {
                Err(e) => Err::<Seq<QueryDeviceView>, ()>(e),
                Ok(rest) => Ok(out.deep_view() + rest),
            }),
        decreases blocks.len() - i,
    {
        let block = &blocks[i];
        proof {
            assert(block@ == bsv[i as int]);
            let rem = bsv.skip(i as int);
            assert(rem[0] == bsv[i as int]);
            assert(rem.skip(1) =~= bsv.skip(i as int + 1));
        }
        if !is_blank(block.as_str()) {
            match QueryDevice::parse(block.as_str()) {
                Err(e) => {
                    proof {
                        assert(parse_blocks(bsv.skip(i as int)) is Err);
                        assert(parse_blocks(bsv) is Err);
                    }
                    return Err(e);
                },
                Ok(d) => {
                    let ghost prev = out.deep_view();
                    out.push(d);
                    proof {
                        if let Ok(rest) = parse_blocks(bsv.skip(i as int + 1)) {
                            assert(prev + (seq![d@] + rest) =~= out.deep_view() + rest);
                        }
                    }
                },
            }
        }
        i = i + 1;
    }
    proof {
        assert(bsv.skip(bsv.len() as int) =~= Seq::<Seq<char>>::empty());
        assert(out.deep_view() + Seq::<QueryDeviceView>::empty() =~= out.deep_view());
    }
    Ok(out)
}

} // verus!
