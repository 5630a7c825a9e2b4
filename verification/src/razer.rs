//! Grouping raw registry records into logical Razer devices, and
//! resolving their control directory and event source.
//!
//! A USB composite device registers one record per logical
//! sub-interface.  No field of the registry names "same physical
//! device", so records are grouped by a positional-path heuristic:
//! the third-from-last segment of the sysfs path, stripped of its
//! trailing `.<hex>` suffix.  This is a heuristic over an observed
//! path shape, not a documented guarantee of the registry format.

use vstd::prelude::*;

use crate::query::{QueryDevice, QueryDeviceView, QueryError};
use crate::strutil::{hex_val_of, split_char_spec, split_char_str, str_eq, str_starts_with};

verus! {

/// The USB vendor identifier of Razer devices.
pub const RAZER_DEVICE_VENDOR_ID: u16 = 0x1532;

/// Why a device operation failed.
#[derive(Debug)]
pub enum OpenRazerError {
    /// The brightness file did not hold a decimal byte.
    MatrixEffectBrightnessParseError,
    /// A tick was dispatched while no renderer was selected.
    NoActiveEffect,
    /// The event queue's producer side is gone; the worker thread
    /// has crashed.  Unrecoverable.
    ChannelFailure,
    /// The registry could not be parsed.
    QueryError(QueryError),
    /// An I/O operation failed; the message is the I/O error's.
    IoError(String),
}

/// A set of raw records believed to represent one physical device.
#[derive(Debug)]
pub struct RazerDevice {
    pub query_devices: Vec<QueryDevice>,
}

impl View for RazerDevice {
    type V = Seq<QueryDeviceView>;

    open spec fn view(&self) -> Seq<QueryDeviceView> {
        self.query_devices.deep_view()
    }
}

impl DeepView for RazerDevice {
    type V = Seq<QueryDeviceView>;

    open spec fn deep_view(&self) -> Seq<QueryDeviceView> {
        self.view()
    }
}

/// Index of the last occurrence of a character, or -1.
pub open spec fn last_index_of(s: Seq<char>, c: char) -> int
    decreases s.len(),
{
    if s.len() == 0 {
        -1
    } else if s[s.len() - 1] == c {
        s.len() - 1
    } else {
        last_index_of(s.drop_last(), c)
    }
}

proof fn lemma_last_index_at(s: Seq<char>, c: char, i: int)
    requires
        0 <= i < s.len(),
        s[i] == c,
        forall|j: int| i < j < s.len() ==> s[j] != c,
    ensures
        last_index_of(s, c) == i,
    decreases s.len(),
{
    if i == s.len() - 1 {
    } else {
        let t = s.drop_last();
        assert(s[s.len() - 1] != c);
        assert forall|j: int| i < j < t.len() implies t[j] != c by {
            assert(t[j] == s[j]);
        }
        assert(t[i] == s[i]);
        lemma_last_index_at(t, c, i);
    }
}

proof fn lemma_last_index_none(s: Seq<char>, c: char)
    requires
        forall|j: int| 0 <= j < s.len() ==> s[j] != c,
    ensures
        last_index_of(s, c) == -1,
    decreases s.len(),
{
    if s.len() != 0 {
        let t = s.drop_last();
        assert forall|j: int| 0 <= j < t.len() implies t[j] != c by {
            assert(t[j] == s[j]);
        }
        lemma_last_index_none(t, c);
    }
}

/// Last occurrence of a character, if any.
fn rfind_char_in(s: &str, c: char) -> (r: Option<usize>)
    ensures
        match r {
            Some(i) => i < s@.len() && last_index_of(s@, c) == i,
            None => last_index_of(s@, c) == -1,
        },
{
    let n = s.unicode_len();
    let mut i: usize = n;
    while i > 0
        invariant
            n == s@.len(),
            i <= n,
            forall|j: int| i <= j < n ==> s@[j] != c,
        decreases i,
    {
        if s.get_char(i - 1) == c {
            proof {
                lemma_last_index_at(s@, c, i - 1);
            }
            return Some(i - 1);
        }
        i = i - 1;
    }
    proof {
        lemma_last_index_none(s@, c);
    }
    None
}

/// The grouping identifier of one path segment: the part before a
/// trailing `.<hex>` suffix, required to be non-empty.
pub open spec fn seg_group_ident(seg: Seq<char>) -> Option<Seq<char>> {
    let d = last_index_of(seg, '.');
    if d >= 1 && d + 1 < seg.len() && (forall|j: int|
        d < j < seg.len() ==> hex_val_of(#[trigger] seg[j]) >= 0) {
        Some(seg.take(d))
    } else {
        None
    }
}

/// The grouping key of a sysfs path: the identifier of its
/// third-from-last segment.  A path with another shape yields no key,
/// and its record is not grouped.
pub open spec fn group_key_of(path: Seq<char>) -> Option<Seq<char>> {
    let segs = split_char_spec(path, '/');
    if segs.len() < 3 {
        None
    } else {
        seg_group_ident(segs[segs.len() - 3])
    }
}

/// The grouping identifier of one path segment.
fn seg_group_ident_exec(seg: &str) -> (r: Option<String>)
    ensures
        match r {
            Some(k) => seg_group_ident(seg@) == Some(k@),
            None => seg_group_ident(seg@) is None,
        },
{
    let n = seg.unicode_len();
    match rfind_char_in(seg, '.') {
        None => None,
        Some(d) => {
            if d < 1 || d + 1 >= n {
                return None;
            }
            let mut j: usize = d + 1;
            while j < n
                invariant
                    n == seg@.len(),
                    last_index_of(seg@, '.') == d as int,
                    1 <= d,
                    d + 1 < n,
                    d + 1 <= j <= n,
                    forall|k: int| d < k < j ==> hex_val_of(#[trigger] seg@[k]) >= 0,
                decreases n - j,
            {
                match crate::strutil::hex_digit_exec(seg.get_char(j)) {
                    None => {
                        proof {
                            assert(hex_val_of(seg@[j as int]) < 0);
                        }
                        return None;
                    },
                    Some(_) => {},
                }
                j = j + 1;
            }
            let head = seg.substring_char(0, d);
            proof {
                assert(head@ =~= seg@.take(d as int));
            }
            Some(head.to_owned())
        },
    }
}

/// The grouping key of a sysfs path.
pub fn group_key_exec(path: &str) -> (r: Option<String>)
    ensures
        match r {
            Some(k) => group_key_of(path@) == Some(k@),
            None => group_key_of(path@) is None,
        },
{
    let segs = split_char_str(path, '/');
    if segs.len() < 3 {
        proof {
            assert(segs.deep_view().len() < 3);
        }
        return None;
    }
    let seg = &segs[segs.len() - 3];
    proof {
        assert(seg@ == segs.deep_view()[segs.deep_view().len() - 3]);
    }
    seg_group_ident_exec(seg.as_str())
}

/// Appends a record to the group of its key, or opens a new group at
/// the end.
pub open spec fn insert_grouped(
    acc: Seq<(Seq<char>, Seq<QueryDeviceView>)>,
    key: Seq<char>,
    d: QueryDeviceView,
) -> Seq<(Seq<char>, Seq<QueryDeviceView>)>
    decreases acc.len(),
{
    if acc.len() == 0 {
        seq![(key, seq![d])]
    } else if acc[0].0 == key {
        seq![(key, acc[0].1.push(d))] + acc.skip(1)
    } else {
        seq![acc[0]] + insert_grouped(acc.skip(1), key, d)
    }
}

/// Folds the records in order into keyed groups; ineligible records
/// are dropped.
pub open spec fn group_fold(
    acc: Seq<(Seq<char>, Seq<QueryDeviceView>)>,
    devs: Seq<QueryDeviceView>,
) -> Seq<(Seq<char>, Seq<QueryDeviceView>)>
    decreases devs.len(),
{
    if devs.len() == 0 {
        acc
    } else {
        let d = devs[0];
        let acc2 = if d.id_vendor == 0x1532 {
            match group_key_of(d.sys_path) {
                None => acc,
                Some(k) => insert_grouped(acc, k, d),
            }
        } else {
            acc
        };
        group_fold(acc2, devs.skip(1))
    }
}

/// What grouping yields: the member lists of the keyed groups, in
/// the order the keys were first seen.
pub open spec fn group_razer_spec(devs: Seq<QueryDeviceView>) -> Seq<Seq<QueryDeviceView>> {
    group_fold(Seq::empty(), devs).map_values(|g: (Seq<char>, Seq<QueryDeviceView>)| g.1)
}

proof fn lemma_insert_grouped_at(
    acc: Seq<(Seq<char>, Seq<QueryDeviceView>)>,
    key: Seq<char>,
    d: QueryDeviceView,
    j: int,
)
    requires
        0 <= j < acc.len(),
        acc[j].0 == key,
        forall|m: int| 0 <= m < j ==> (#[trigger] acc[m]).0 != key,
    ensures
        insert_grouped(acc, key, d) == acc.update(j, (key, acc[j].1.push(d))),
    decreases j,
{
    if j == 0 {
        assert(insert_grouped(acc, key, d) =~= acc.update(0, (key, acc[0].1.push(d))));
    } else {
        assert(acc[0].0 != key);
        let t = acc.skip(1);
        assert forall|m: int| 0 <= m < j - 1 implies (#[trigger] t[m]).0 != key by {
            assert(t[m] == acc[m + 1]);
        }
        assert(t[j - 1] == acc[j]);
        lemma_insert_grouped_at(t, key, d, j - 1);
        assert(seq![acc[0]] + t.update(j - 1, (key, acc[j].1.push(d))) =~= acc.update(
            j,
            (key, acc[j].1.push(d)),
        ));
    }
}

proof fn lemma_insert_grouped_none(
    acc: Seq<(Seq<char>, Seq<QueryDeviceView>)>,
    key: Seq<char>,
    d: QueryDeviceView,
)
    requires
        forall|m: int| 0 <= m < acc.len() ==> (#[trigger] acc[m]).0 != key,
    ensures
        insert_grouped(acc, key, d) == acc.push((key, seq![d])),
    decreases acc.len(),
{
    if acc.len() == 0 {
        assert(insert_grouped(acc, key, d) =~= acc.push((key, seq![d])));
    } else {
        assert(acc[0].0 != key);
        let t = acc.skip(1);
        assert forall|m: int| 0 <= m < t.len() implies (#[trigger] t[m]).0 != key by {
            assert(t[m] == acc[m + 1]);
        }
        lemma_insert_grouped_none(t, key, d);
        assert(seq![acc[0]] + t.push((key, seq![d])) =~= acc.push((key, seq![d])));
    }
}

/// Groups the given records into logical devices.
///
/// Records of other vendors, and records whose sysfs path yields no
/// grouping key, are dropped.  Records sharing a key form one
/// [`RazerDevice`], members in record order, groups in the order the
/// keys were first seen.
pub fn query_razer_devices(devices: Vec<QueryDevice>) -> (r: Vec<RazerDevice>)
    ensures
        r.deep_view() == group_razer_spec(devices.deep_view()),
{
    let ghost devsv = devices.deep_view();
    let mut devices = devices;
    let mut groups: Vec<(String, Vec<QueryDevice>)> = Vec::new();
    proof {
        assert(devsv.skip(0) =~= devsv);
        assert(groups.deep_view() =~= Seq::<(Seq<char>, Seq<QueryDeviceView>)>::empty());
    }
    let ghost n = devsv.len();
    let ghost mut i: int = 0;
    while devices.len() > 0
        invariant
            n == devsv.len(),
            0 <= i <= n,
            devices.deep_view() == devsv.skip(i),
            devices.len() == n - i,
            group_fold(Seq::empty(), devsv) == group_fold(groups.deep_view(), devsv.skip(i)),
        decreases devices.len(),
    {
        let ghost pre_at = devices@;
        let ghost pre_dv = devices.deep_view();
        let d = devices.remove(0);
        proof {
            assert(pre_dv[0] == pre_at[0].deep_view());
            assert(d.deep_view() == pre_dv[0]);
            assert(devsv.skip(i)[0] == devsv[i + 0]);
            assert(d.deep_view() == devsv[i]);
            assert(devsv.skip(i).skip(1) =~= devsv.skip(i + 1));
            assert forall|m: int| 0 <= m < devices@.len() implies devices.deep_view()[m]
                == devsv.skip(i + 1)[m] by {
                assert(devices@[m] == pre_at[m + 1]);
                assert(devices.deep_view()[m] == devices@[m].deep_view());
                assert(pre_dv[m + 1] == pre_at[m + 1].deep_view());
                assert(pre_dv[m + 1] == devsv.skip(i)[m + 1]);
                assert(devsv.skip(i)[m + 1] == devsv[i + m + 1]);
                assert(devsv.skip(i + 1)[m] == devsv[i + 1 + m]);
            }
            assert(devices.deep_view() =~= devsv.skip(i + 1));
        }
        if d.id_vendor == RAZER_DEVICE_VENDOR_ID {
            match group_key_exec(d.sys_path.as_str()) {
                None => {},
                Some(key) => {
                    let ghost keyv = key@;
                    let ghost acc = groups.deep_view();
                    let mut j: usize = 0;
                    let mut found: bool = false;
                    while j < groups.len()
                        invariant_except_break
                            !found,
                        invariant
                            acc == groups.deep_view(),
                            keyv == key@,
                            j <= groups.len(),
                            groups.len() == acc.len(),
                            forall|m: int| 0 <= m < j ==> (#[trigger] acc[m]).0 != keyv,
                        ensures
                            found ==> j < acc.len() && acc[j as int].0 == keyv,
                            !found ==> j == acc.len(),
                            forall|m: int| 0 <= m < j ==> (#[trigger] acc[m]).0 != keyv,
                        decreases groups.len() - j,
                    {
                        proof {
                            assert(acc[j as int] == groups@[j as int].deep_view());
                            assert(acc[j as int].0 == groups@[j as int].0@);
                        }
                        if str_eq(groups[j].0.as_str(), key.as_str()) {
                            proof {
                                assert(acc[j as int].0 == keyv);
                            }
                            found = true;
                            break;
                        }
                        proof {
                            assert(acc[j as int].0 != keyv);
                        }
                        j = j + 1;
                    }
                    if found {
                        proof {
                            lemma_insert_grouped_at(acc, keyv, devsv[i], j as int);
                            assert(acc[j as int] == groups@[j as int].deep_view());
                        }
                        let ghost pre_at = groups@;
                        let mut g = groups.remove(j);
                        proof {
                            assert(g == pre_at[j as int]);
                            assert(g.deep_view() == acc[j as int]);
                        }
                        let ghost pre_g1 = g.1.deep_view();
                        g.1.push(d);
                        proof {
                            assert(g.1.deep_view() =~~= pre_g1.push(devsv[i]));
                            assert(g.deep_view().1 == g.1.deep_view());
                            assert(g.deep_view().0 == g.0@);
                        }
                        groups.insert(j, g);
                        proof {
                            let target = acc.update(
                                j as int,
                                (keyv, acc[j as int].1.push(devsv[i])),
                            );
                            assert(groups@ =~= pre_at.update(j as int, g));
                            assert forall|m: int| 0 <= m < groups@.len() implies
                                groups.deep_view()[m] == target[m] by {
                                assert(groups.deep_view()[m] == groups@[m].deep_view());
                                if m == j as int {
                                    assert(g.deep_view().0 == g.0@);
                                    assert(g.deep_view().1 =~~= acc[j as int].1.push(devsv[i]));
                                } else {
                                    assert(groups@[m] == pre_at[m]);
                                    assert(acc[m] == pre_at[m].deep_view());
                                }
                            }
                            assert(groups.deep_view() =~~= target);
                        }
                    } else {
                        proof {
                            lemma_insert_grouped_none(acc, keyv, devsv[i]);
                        }
                        let ghost pre_at = groups@;
                        let mut members: Vec<QueryDevice> = Vec::new();
                        members.push(d);
                        groups.push((key, members));
                        proof {
                            let target = acc.push((keyv, seq![devsv[i]]));
                            assert forall|m: int| 0 <= m < groups@.len() implies
                                groups.deep_view()[m] == target[m] by {
                                assert(groups.deep_view()[m] == groups@[m].deep_view());
                                if m < pre_at.len() {
                                    assert(groups@[m] == pre_at[m]);
                                    assert(acc[m] == pre_at[m].deep_view());
                                } else {
                                    assert(groups@[m] == (key, members));
                                    assert(members.deep_view() =~= seq![devsv[i]]);
                                }
                            }
                            assert(groups.deep_view() =~~= target);
                        }
                    }
                },
            }
        }
        proof {
            i = i + 1;
        }
    }
    proof {
        assert(devsv.skip(n as int) =~= Seq::<QueryDeviceView>::empty());
    }
    let mut out: Vec<RazerDevice> = Vec::new();
    let ghost fold_result = groups.deep_view();
    let ghost gn = fold_result.len();
    let ghost mut k: int = 0;
    proof {
        assert(fold_result.skip(0) =~= fold_result);
    }
    while groups.len() > 0
        invariant
            gn == fold_result.len(),
            0 <= k <= gn,
            groups.deep_view() == fold_result.skip(k),
            groups.len() == gn - k,
            out.len() == k,
            forall|m: int| 0 <= m < k ==> out.deep_view()[m] == (#[trigger] fold_result[m]).1,
        decreases groups.len(),
    {
        let ghost pre_at = groups@;
        let ghost pre_dv = groups.deep_view();
        let g = groups.remove(0);
        proof {
            assert(pre_dv[0] == pre_at[0].deep_view());
            assert(g.deep_view() == pre_dv[0]);
            assert(fold_result.skip(k)[0] == fold_result[k + 0]);
            assert(g.deep_view() == fold_result[k]);
            assert forall|m: int| 0 <= m < groups@.len() implies groups.deep_view()[m]
                == fold_result.skip(k + 1)[m] by {
                assert(groups@[m] == pre_at[m + 1]);
                assert(groups.deep_view()[m] == groups@[m].deep_view());
                assert(pre_dv[m + 1] == pre_at[m + 1].deep_view());
                assert(pre_dv[m + 1] == fold_result.skip(k)[m + 1]);
                assert(fold_result.skip(k)[m + 1] == fold_result[k + m + 1]);
                assert(fold_result.skip(k + 1)[m] == fold_result[k + 1 + m]);
            }
            assert(groups.deep_view() =~= fold_result.skip(k + 1));
        }
        let ghost prev = out.deep_view();
        let ghost g1v = g.1.deep_view();
        out.push(RazerDevice { query_devices: g.1 });
        proof {
            assert(g.deep_view().1 == g1v);
            assert(out.deep_view()[k] == fold_result[k].1);
            assert forall|m: int| 0 <= m < k implies out.deep_view()[m] == (
            #[trigger] fold_result[m]).1 by {
                assert(out.deep_view()[m] == prev[m]);
            }
            k = k + 1;
        }
    }
    proof {
        assert(out.deep_view() =~= group_razer_spec(devsv));
    }
    out
}

/// Whether a record lists this capability handler.
pub open spec fn has_handler(d: QueryDeviceView, h: Seq<char>) -> bool {
    exists|k: int| 0 <= k < d.handlers.len() && #[trigger] d.handlers[k] == h
}

/// Index of the first handler that starts with `event`, or -1.
pub open spec fn first_event_idx(hs: Seq<Seq<char>>) -> int
    decreases hs.len(),
{
    if hs.len() == 0 {
        -1
    } else if "event"@.is_prefix_of(hs[0]) {
        0
    } else {
        let r = first_event_idx(hs.skip(1));
        if r < 0 {
            -1
        } else {
            r + 1
        }
    }
}

/// Whether a record looks like the keyboard input interface: it has
/// a keyboard-class handler, no LED-class handler, and an event
/// node to read from.
pub open spec fn record_qualifies(d: QueryDeviceView) -> bool {
    has_handler(d, "kbd"@) && !has_handler(d, "leds"@) && first_event_idx(d.handlers) >= 0
}

/// Index of the first qualifying record, or -1.
pub open spec fn first_qualifying(devs: Seq<QueryDeviceView>) -> int
    decreases devs.len(),
{
    if devs.len() == 0 {
        -1
    } else if record_qualifies(devs[0]) {
        0
    } else {
        let r = first_qualifying(devs.skip(1));
        if r < 0 {
            -1
        } else {
            r + 1
        }
    }
}

/// What the event-source resolution yields: the device path of the
/// first qualifying member's first event handler, or nothing — a
/// device without a keyboard interface is a normal outcome.
pub open spec fn event_source_of(devs: Seq<QueryDeviceView>) -> Option<Seq<char>> {
    let i = first_qualifying(devs);
    if i < 0 {
        None
    } else {
        Some("/dev/input/"@ + devs[i].handlers[first_event_idx(devs[i].handlers)])
    }
}

proof fn lemma_first_event_at(hs: Seq<Seq<char>>, i: int)
    requires
        0 <= i < hs.len(),
        "event"@.is_prefix_of(hs[i]),
        forall|j: int| 0 <= j < i ==> !"event"@.is_prefix_of(#[trigger] hs[j]),
    ensures
        first_event_idx(hs) == i,
    decreases i,
{
    if i > 0 {
        let t = hs.skip(1);
        assert forall|j: int| 0 <= j < i - 1 implies !"event"@.is_prefix_of(#[trigger] t[j]) by {
            assert(t[j] == hs[j + 1]);
        }
        assert(t[i - 1] == hs[i]);
        lemma_first_event_at(t, i - 1);
    }
}

proof fn lemma_first_event_none(hs: Seq<Seq<char>>)
    requires
        forall|j: int| 0 <= j < hs.len() ==> !"event"@.is_prefix_of(#[trigger] hs[j]),
    ensures
        first_event_idx(hs) == -1,
    decreases hs.len(),
{
    if hs.len() != 0 {
        let t = hs.skip(1);
        assert forall|j: int| 0 <= j < t.len() implies !"event"@.is_prefix_of(#[trigger] t[j]) by {
            assert(t[j] == hs[j + 1]);
        }
        lemma_first_event_none(t);
    }
}

proof fn lemma_first_qualifying_at(devs: Seq<QueryDeviceView>, i: int)
    requires
        0 <= i < devs.len(),
        record_qualifies(devs[i]),
        forall|j: int| 0 <= j < i ==> !record_qualifies(#[trigger] devs[j]),
    ensures
        first_qualifying(devs) == i,
    decreases i,
{
    if i > 0 {
        let t = devs.skip(1);
        assert forall|j: int| 0 <= j < i - 1 implies !record_qualifies(#[trigger] t[j]) by {
            assert(t[j] == devs[j + 1]);
        }
        assert(t[i - 1] == devs[i]);
        lemma_first_qualifying_at(t, i - 1);
    }
}

proof fn lemma_first_qualifying_none(devs: Seq<QueryDeviceView>)
    requires
        forall|j: int| 0 <= j < devs.len() ==> !record_qualifies(#[trigger] devs[j]),
    ensures
        first_qualifying(devs) == -1,
    decreases devs.len(),
{
    if devs.len() != 0 {
        let t = devs.skip(1);
        assert forall|j: int| 0 <= j < t.len() implies !record_qualifies(#[trigger] t[j]) by {
            assert(t[j] == devs[j + 1]);
        }
        lemma_first_qualifying_none(t);
    }
}

/// Whether this vector of handler names holds the given one.
fn handlers_contain(hs: &Vec<String>, t: &str) -> (r: bool)
    ensures
        r == (exists|k: int|
            0 <= k < hs.deep_view().len() && #[trigger] hs.deep_view()[k] == t@),
{
    let mut k: usize = 0;
    while k < hs.len()
        invariant
            k <= hs.len(),
            forall|j: int| 0 <= j < k ==> #[trigger] hs.deep_view()[j] != t@,
        decreases hs.len() - k,
    {
        if str_eq(hs[k].as_str(), t) {
            proof {
                assert(hs.deep_view()[k as int] == t@);
            }
            return true;
        }
        k = k + 1;
    }
    false
}

/// The first handler starting with `event`, as an index.
fn find_event_handler(hs: &Vec<String>) -> (r: Option<usize>)
    ensures
        match r {
            Some(k) => k < hs.deep_view().len() && first_event_idx(hs.deep_view()) == k,
            None => first_event_idx(hs.deep_view()) == -1,
        },
{
    let mut k: usize = 0;
    while k < hs.len()
        invariant
            k <= hs.len(),
            forall|j: int| 0 <= j < k ==> !"event"@.is_prefix_of(#[trigger] hs.deep_view()[j]),
        decreases hs.len() - k,
    {
        if str_starts_with(hs[k].as_str(), "event") {
            proof {
                assert("event"@.is_prefix_of(hs.deep_view()[k as int]));
                lemma_first_event_at(hs.deep_view(), k as int);
            }
            return Some(k);
        }
        proof {
            assert(!"event"@.is_prefix_of(hs.deep_view()[k as int]));
        }
        k = k + 1;
    }
    proof {
        lemma_first_event_none(hs.deep_view());
    }
    None
}

impl RazerDevice {
    /// Candidate control directories, one per member record: the
    /// grandparent directory of `/sys/<sysfs path>`.  The caller
    /// scans each for the marker file that proves LED-matrix
    /// capability.
    pub fn control_dir_candidates(&self) -> (r: Vec<String>)
        ensures
            r.deep_view() == self@.map_values(|d: QueryDeviceView| control_dir_of(d.sys_path)),
    {
        let mut out: Vec<String> = Vec::new();
        let mut i: usize = 0;
        while i < self.query_devices.len()
            invariant
                i <= self.query_devices.len(),
                out.len() == i,
                forall|j: int|
                    0 <= j < i ==> out.deep_view()[j] == control_dir_of(
                        (#[trigger] self@[j]).sys_path,
                    ),
            decreases self.query_devices.len() - i,
        {
            let d = &self.query_devices[i];
            proof {
                assert(d.deep_view() == self@[i as int]);
            }
            let mut p = String::from_str("/sys/");
            p.append(d.sys_path.as_str());
            let p1 = parent_path(p.as_str());
            let p2 = parent_path(p1);
            let ghost prev = out.deep_view();
            out.push(p2.to_owned());
            proof {
                assert(out.deep_view()[i as int] == control_dir_of(self@[i as int].sys_path));
                assert forall|j: int|
                    0 <= j < i implies out.deep_view()[j] == control_dir_of(
                    (#[trigger] self@[j]).sys_path,
                ) by {
                    assert(out.deep_view()[j] == prev[j]);
                }
            }
            i = i + 1;
        }
        proof {
            assert(out.deep_view() =~= self@.map_values(
                |d: QueryDeviceView| control_dir_of(d.sys_path),
            ));
        }
        out
    }

    /// The event-source device path of this logical device: the
    /// first member with a keyboard handler and no LED handler
    /// contributes its first `event*` handler, resolved under
    /// `/dev/input/`.  `None` when no member qualifies — a normal
    /// outcome for hardware without a keyboard interface.
    pub fn event_source_path(&self) -> (r: Option<String>)
        ensures
            match r {
                Some(p) => event_source_of(self@) == Some(p@),
                None => event_source_of(self@) is None,
            },
    {
        let mut i: usize = 0;
        while i < self.query_devices.len()
            invariant
                i <= self.query_devices.len(),
                forall|j: int| 0 <= j < i ==> !record_qualifies(#[trigger] self@[j]),
            decreases self.query_devices.len() - i,
        {
            let d = &self.query_devices[i];
            proof {
                assert(d.deep_view() == self@[i as int]);
            }
            if handlers_contain(&d.handlers, "kbd") && !handlers_contain(&d.handlers, "leds") {
                match find_event_handler(&d.handlers) {
                    Some(k) => {
                        proof {
                            assert(self@[i as int].handlers == d.handlers.deep_view());
                            assert(has_handler(self@[i as int], "kbd"@));
                            assert(!has_handler(self@[i as int], "leds"@));
                            assert(record_qualifies(self@[i as int]));
                            lemma_first_qualifying_at(self@, i as int);
                        }
                        let mut p = String::from_str("/dev/input/");
                        p.append(d.handlers[k].as_str());
                        proof {
                            assert(d.handlers.deep_view()[k as int] == self@[i as int].handlers[
                                first_event_idx(self@[i as int].handlers)
                            ]);
                        }
                        return Some(p);
                    },
                    None => {
                        proof {
                            assert(self@[i as int].handlers == d.handlers.deep_view());
                            assert(!record_qualifies(self@[i as int]));
                        }
                    },
                }
            } else {
                proof {
                    assert(self@[i as int].handlers == d.handlers.deep_view());
                    assert(!record_qualifies(self@[i as int]));
                }
            }
            i = i + 1;
        }
        proof {
            lemma_first_qualifying_none(self@);
        }
        None
    }
}

/// The textual parent directory: the path up to its last slash.  A
/// lone leading slash stays, a path without a slash empties.
pub open spec fn parent_path_spec(s: Seq<char>) -> Seq<char> {
    let d = last_index_of(s, '/');
    if d < 0 {
        Seq::empty()
    } else if d == 0 {
        s.take(1)
    } else {
        s.take(d)
    }
}

/// The control-directory candidate for one sysfs path: the textual
/// grandparent of `/sys/<path>`.
pub open spec fn control_dir_of(sys_path: Seq<char>) -> Seq<char> {
    parent_path_spec(parent_path_spec("/sys/"@ + sys_path))
}

/// The textual parent directory of a path.
pub fn parent_path<'a>(s: &'a str) -> (r: &'a str)
    ensures
        r@ == parent_path_spec(s@),
{
    match rfind_char_in(s, '/') {
        None => {
            let r = s.substring_char(0, 0);
            proof {
                assert(r@ =~= parent_path_spec(s@));
            }
            r
        },
        Some(d) => {
            let e = if d == 0 { 1 } else { d };
            let r = s.substring_char(0, e);
            proof {
                assert(r@ =~= parent_path_spec(s@));
            }
            r
        },
    }
}

} // verus!
