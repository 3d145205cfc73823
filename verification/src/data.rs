//! The "get data" operation: the key-taxonomy decoder, the topic
//! normalizer, the response decoder, and the query builder.
//!
//! The vendor reports each measurement under a flat, slash-delimited field
//! name such as `A/Ch/1` or `kWHNet/Elm/3`: a category, a sub-category and
//! an identifier.  The decoder turns such a name into a typed [`Key`]; the
//! normalizer turns one flat response row into a categorized reading per
//! timestamp; the response decoder assembles whole [`Data`] envelopes from
//! response text.

use vstd::pervasive::VecAdditionalExecFns;
use vstd::prelude::*;
use vstd::string::*;

use crate::json::Json;
use crate::json::envelope_error;
use crate::json::json_as_array;
use crate::json::json_as_str;
use crate::json::json_get;
use crate::json::json_model;
use crate::json::json_parse;
use crate::json::json_object_entries;
use crate::json::models_of;
use crate::json::parse_json_text;
use crate::json::spec_envelope;
use crate::json::str_items;
use crate::json::extract_str_items;
use crate::numtext::is_float_literal;
use crate::numtext::is_float_text;
use crate::strutil::find_char;
use crate::strutil::lemma_sep_index_bounds;
use crate::strutil::lemma_split_on_len;
use crate::strutil::lemma_split_on_step;
use crate::strutil::lemma_split_on_whole;
use crate::strutil::lemma_join_comma_push;
use crate::strutil::sep_index;
use crate::strutil::spec_join_comma;
use crate::strutil::spec_udec;
use crate::strutil::split_on;
use crate::strutil::str_eq;
use crate::strutil::u32_to_string;
use crate::timestamp::Timestamp;
use crate::timestamp::parse_timestamp;
use crate::timestamp::timestamp_parse;
use crate::Error;

verus! {

/// The request shape of a data query.  `month` runs 1 through 12; when
/// `hour` is given the vendor expects `day` as well (a convention of the
/// vendor, not enforced here).
#[derive(Debug, Clone, PartialEq)]
pub struct Parameters {
    pub year: u16,
    pub month: u8,
    pub day: Option<u8>,
    pub hour: Option<u8>,
    pub topics: Vec<String>,
    pub meter: String,
}

/// A categorized field key: the vendor's category and sub-category pick the
/// variant, and the identifier rides along unchanged.
#[derive(Debug, Clone, PartialEq)]
pub enum Key {
    AmpChannels(String),
    KilowattHoursNetElement(String),
    DemandKilowattElements(String),
    DisplacementPowerFactorChannel(String),
    DisplacementPowerFactorElement(String),
}

/// The mathematical value of a [`Key`]: the same variants over character
/// sequences.
pub enum KeyView {
    AmpChannels(Seq<char>),
    KilowattHoursNetElement(Seq<char>),
    DemandKilowattElements(Seq<char>),
    DisplacementPowerFactorChannel(Seq<char>),
    DisplacementPowerFactorElement(Seq<char>),
}

impl View for Key {
    type V = KeyView;

    open spec fn view(&self) -> KeyView {
        match self {
            Key::AmpChannels(id) => KeyView::AmpChannels(id@),
            Key::KilowattHoursNetElement(id) => KeyView::KilowattHoursNetElement(id@),
            Key::DemandKilowattElements(id) => KeyView::DemandKilowattElements(id@),
            Key::DisplacementPowerFactorChannel(id) => KeyView::DisplacementPowerFactorChannel(id@),
            Key::DisplacementPowerFactorElement(id) => KeyView::DisplacementPowerFactorElement(id@),
        }
    }
}

impl DeepView for Key {
    type V = KeyView;

    open spec fn deep_view(&self) -> KeyView {
        self@
    }
}

/// The taxonomy table: which category and sub-category give which variant.
/// Any other pair decodes to nothing.
pub open spec fn spec_key_of_parts(cat: Seq<char>, sub: Seq<char>, id: Seq<char>) -> Option<
    KeyView,
> {
    if cat == "A"@ && sub == "Ch"@ {
        Some(KeyView::AmpChannels(id))
    } else if cat == "kWHNet"@ && sub == "Elm"@ {
        Some(KeyView::KilowattHoursNetElement(id))
    } else if cat == "dPF"@ && sub == "Ch"@ {
        Some(KeyView::DisplacementPowerFactorChannel(id))
    } else if cat == "dPF"@ && sub == "Elm"@ {
        Some(KeyView::DisplacementPowerFactorElement(id))
    } else if cat == "DemandkW"@ && sub == "Elm"@ {
        Some(KeyView::DemandKilowattElements(id))
    } else {
        None
    }
}

/// What a raw field name decodes to: its first three slash-separated
/// segments read against the taxonomy table, or nothing when it has fewer
/// than three segments or an unlisted category pair.
pub open spec fn spec_raw_key(s: Seq<char>) -> Option<KeyView> {
    let segs = split_on(s, '/');
    if segs.len() < 3 {
        None
    } else {
        spec_key_of_parts(segs[0], segs[1], segs[2])
    }
}

/// Decode a raw field name.  The vendor's field-naming contract promises a
/// decodable name wherever one reaches this; an undecodable one is reported
/// as nothing and treated by callers as a broken data contract.
pub fn raw_key_to_key(raw_key: String) -> (r: Option<Key>)
    ensures
        r matches Some(k) ==> spec_raw_key(raw_key@) == Some(k@),
        r is None ==> spec_raw_key(raw_key@) is None,
{
    let s = raw_key.as_str();
    let n = s.unicode_len();
    let i = find_char(s, '/');
    if i == n {
        return None;
    }
    let cat = s.substring_char(0, i);
    let rest1 = s.substring_char(i + 1, n);
    proof {
        lemma_sep_index_bounds(s@, '/');
        assert(cat@ + seq!['/'] + rest1@ =~= s@);
        lemma_split_on_step(cat@, rest1@, '/');
    }
    let m = rest1.unicode_len();
    let j = find_char(rest1, '/');
    if j == m {
        proof {
            lemma_sep_index_bounds(rest1@, '/');
            lemma_split_on_whole(rest1@, '/');
            assert(split_on(s@, '/').len() == 2);
        }
        return None;
    }
    let sub = rest1.substring_char(0, j);
    let rest2 = rest1.substring_char(j + 1, m);
    proof {
        lemma_sep_index_bounds(rest1@, '/');
        assert(sub@ + seq!['/'] + rest2@ =~= rest1@);
        lemma_split_on_step(sub@, rest2@, '/');
    }
    let p = rest2.unicode_len();
    let k = find_char(rest2, '/');
    let id = rest2.substring_char(0, k);
    proof {
        lemma_sep_index_bounds(rest2@, '/');
        lemma_split_on_len(rest2@, '/');
        if k as nat >= rest2@.len() {
            assert(rest2@.take(k as int) =~= rest2@);
            assert(split_on(rest2@, '/')[0] == rest2@);
        } else {
            assert(split_on(rest2@, '/')[0] == rest2@.take(k as int));
        }
        assert(split_on(s@, '/') == seq![cat@, sub@] + split_on(rest2@, '/'));
        assert(split_on(s@, '/').len() >= 3);
        assert(split_on(s@, '/')[0] == cat@);
        assert(split_on(s@, '/')[1] == sub@);
        assert(split_on(s@, '/')[2] == id@);
    }
    if str_eq(cat, "A") && str_eq(sub, "Ch") {
        Some(Key::AmpChannels(String::from_str(id)))
    } else if str_eq(cat, "kWHNet") && str_eq(sub, "Elm") {
        Some(Key::KilowattHoursNetElement(String::from_str(id)))
    } else if str_eq(cat, "dPF") && str_eq(sub, "Ch") {
        Some(Key::DisplacementPowerFactorChannel(String::from_str(id)))
    } else if str_eq(cat, "dPF") && str_eq(sub, "Elm") {
        Some(Key::DisplacementPowerFactorElement(String::from_str(id)))
    } else if str_eq(cat, "DemandkW") && str_eq(sub, "Elm") {
        Some(Key::DemandKilowattElements(String::from_str(id)))
    } else {
        None
    }
}

/// Law: a well-formed three-part field name — category, sub-category and
/// identifier joined by slashes, none containing a slash — decodes to the
/// taxonomy table's variant for its category pair, with the identifier
/// preserved unchanged; an unlisted pair decodes to nothing.
pub proof fn lemma_key_taxonomy(cat: Seq<char>, sub: Seq<char>, id: Seq<char>)
    requires
        forall|k: int| 0 <= k < cat.len() ==> cat[k] != '/',
        forall|k: int| 0 <= k < sub.len() ==> sub[k] != '/',
        forall|k: int| 0 <= k < id.len() ==> id[k] != '/',
    ensures
        spec_raw_key(cat + seq!['/'] + sub + seq!['/'] + id) == spec_key_of_parts(cat, sub, id),
{
    let rest = sub + seq!['/'] + id;
    let s = cat + seq!['/'] + sub + seq!['/'] + id;
    assert(s =~= cat + seq!['/'] + rest);
    lemma_split_on_step(cat, rest, '/');
    lemma_split_on_step(sub, id, '/');
    lemma_split_on_whole(id, '/');
    assert(split_on(s, '/') == seq![cat] + (seq![sub] + seq![id]));
    assert(split_on(s, '/').len() == 3);
    assert(split_on(s, '/')[0] == cat);
    assert(split_on(s, '/')[1] == sub);
    assert(split_on(s, '/')[2] == id);
}

/// The vendor's query encoding of a topic list: the items joined by
/// comma-and-space, between a bracket-space pair.
pub open spec fn spec_topics_value(ts: Seq<Seq<char>>) -> Seq<char> {
    seq!['[', ' '] + spec_join_comma(ts) + seq![' ', ']']
}

/// Render a topic list as the vendor's bracketed query value.
pub fn render_topics(topics: &Vec<String>) -> (s: String)
    ensures
        s@ == spec_topics_value(topics.deep_view()),
{
    let ghost ts = topics.deep_view();
    let mut s = String::from_str("[ ");
    proof {
        reveal_strlit("[ ");
        assert(s@ =~= seq!['[', ' ']);
    }
    let mut i: usize = 0;
    while i < topics.len()
        invariant
            i <= topics.len(),
            ts == topics.deep_view(),
            ts.len() == topics@.len(),
            s@ == seq!['[', ' '] + spec_join_comma(ts.take(i as int)),
        decreases topics.len() - i,
    {
        proof {
            assert(ts.take(i + 1) =~= ts.take(i as int).push(ts[i as int]));
            lemma_join_comma_push(ts.take(i as int), ts[i as int]);
            assert(ts[i as int] == topics@[i as int]@);
        }
        if i > 0 {
            s.append(", ");
            proof {
                reveal_strlit(", ");
                assert(", "@ =~= seq![',', ' ']);
            }
        }
        let ghost before = s@;
        s.append(topics[i].as_str());
        proof {
            if i == 0 {
                assert(ts.take(0int) =~= Seq::<Seq<char>>::empty());
                assert(spec_join_comma(ts.take(0int)) == Seq::<char>::empty());
                assert(s@ =~= seq!['[', ' '] + spec_join_comma(ts.take(i + 1)));
            } else {
                assert(s@ =~= seq!['[', ' '] + (spec_join_comma(ts.take(i as int)) + seq![
                    ',',
                    ' ',
                ] + ts[i as int]));
                assert(s@ =~= seq!['[', ' '] + spec_join_comma(ts.take(i + 1)));
            }
        }
        i += 1;
    }
    s.append(" ]");
    proof {
        reveal_strlit(" ]");
        assert(" ]"@ =~= seq![' ', ']']);
        assert(ts.take(i as int) =~= ts);
        assert(s@ =~= spec_topics_value(ts));
    }
    s
}

/// The query entry an optional day or hour adds: one pair when present,
/// nothing when absent.
pub open spec fn spec_opt_entry(name: Seq<char>, v: Option<u8>) -> Seq<(Seq<char>, Seq<char>)> {
    match v {
        Some(x) => seq![(name, spec_udec(x as nat))],
        None => Seq::empty(),
    }
}

/// The full query parameter list of a `getData` request, in order: the
/// request name, the year, the month, the bracketed topic list, the meter,
/// then the optional day and hour.
pub open spec fn spec_data_query(
    year: u16,
    month: u8,
    day: Option<u8>,
    hour: Option<u8>,
    topics: Seq<Seq<char>>,
    meter: Seq<char>,
) -> Seq<(Seq<char>, Seq<char>)> {
    seq![
        ("request"@, "getData"@),
        ("year"@, spec_udec(year as nat)),
        ("month"@, spec_udec(month as nat)),
        ("topics"@, spec_topics_value(topics)),
        ("meter"@, meter),
    ] + spec_opt_entry("day"@, day) + spec_opt_entry("hour"@, hour)
}

/// Build the query parameter list of a `getData` request.
pub fn data_query(parameters: &Parameters) -> (q: Vec<(String, String)>)
    ensures
        q.deep_view() == spec_data_query(
            parameters.year,
            parameters.month,
            parameters.day,
            parameters.hour,
            parameters.topics.deep_view(),
            parameters.meter@,
        ),
{
    let mut q: Vec<(String, String)> = Vec::new();
    q.push((String::from_str("request"), String::from_str("getData")));
    q.push((String::from_str("year"), u32_to_string(parameters.year as u32)));
    q.push((String::from_str("month"), u32_to_string(parameters.month as u32)));
    q.push((String::from_str("topics"), render_topics(&parameters.topics)));
    q.push((String::from_str("meter"), parameters.meter.clone()));
    match parameters.day {
        Some(d) => {
            q.push((String::from_str("day"), u32_to_string(d as u32)));
        },
        None => {},
    }
    match parameters.hour {
        Some(h) => {
            q.push((String::from_str("hour"), u32_to_string(h as u32)));
        },
        None => {},
    }
    proof {
        assert(q.deep_view() =~= spec_data_query(
            parameters.year,
            parameters.month,
            parameters.day,
            parameters.hour,
            parameters.topics.deep_view(),
            parameters.meter@,
        ));
    }
    q
}

/// One measurement list: identifier to numeric text, keys unique.  The
/// numeric text is the vendor's own rendering of the measurement, kept as
/// it came.
pub type Measurements = Vec<(String, String)>;

/// The two displacement-power-factor lists of a reading, one per channel
/// and one per element.
#[derive(Debug, Clone, PartialEq)]
pub struct DisplacementPowerFactor {
    pub channels: Measurements,
    pub elements: Measurements,
}

/// One reading: every measurement of one timestamp, partitioned by the
/// decoded key's category.  The timezone is unknown from the API; assume
/// the timezone of the device's real-world location.
#[derive(Debug, Clone, PartialEq)]
pub struct Topic {
    pub time: Timestamp,
    pub amps_channels: Measurements,
    pub kilowatt_hours_net_elements: Measurements,
    pub demand_kilowatt_elements: Measurements,
    pub displacement_power_factor: DisplacementPowerFactor,
}

/// The finite map an entry list stands for, later entries overriding
/// earlier ones.
pub open spec fn assoc_map(es: Seq<(Seq<char>, Seq<char>)>) -> Map<Seq<char>, Seq<char>>
    decreases es.len(),
{
    if es.len() == 0 {
        Map::empty()
    } else {
        assoc_map(es.drop_last()).insert(es.last().0, es.last().1)
    }
}

/// No two entries share a key.
pub open spec fn entries_unique(es: Seq<(Seq<char>, Seq<char>)>) -> bool {
    forall|i: int, j: int| 0 <= i < j < es.len() ==> (#[trigger] es[i]).0 != (#[trigger] es[j]).0
}

/// A well-formed measurement list: keys unique and every value numeric
/// text.
pub open spec fn measurements_wf(es: Seq<(Seq<char>, Seq<char>)>) -> bool {
    entries_unique(es) && forall|i: int| 0 <= i < es.len() ==> is_float_text((#[trigger] es[i]).1)
}

impl Topic {
    /// Every measurement list of the reading is well-formed.
    pub open spec fn wf(&self) -> bool {
        &&& measurements_wf(self.amps_channels.deep_view())
        &&& measurements_wf(self.kilowatt_hours_net_elements.deep_view())
        &&& measurements_wf(self.demand_kilowatt_elements.deep_view())
        &&& measurements_wf(self.displacement_power_factor.channels.deep_view())
        &&& measurements_wf(self.displacement_power_factor.elements.deep_view())
    }
}

/// The five target lists a decoded key can route a measurement to.
pub enum Category {
    Amp,
    KwhNet,
    DemandKw,
    DpfChannel,
    DpfElement,
}

/// Which target list a decoded key selects.
pub open spec fn key_category(k: KeyView) -> Category {
    match k {
        KeyView::AmpChannels(_) => Category::Amp,
        KeyView::KilowattHoursNetElement(_) => Category::KwhNet,
        KeyView::DemandKilowattElements(_) => Category::DemandKw,
        KeyView::DisplacementPowerFactorChannel(_) => Category::DpfChannel,
        KeyView::DisplacementPowerFactorElement(_) => Category::DpfElement,
    }
}

/// The identifier a decoded key carries.
pub open spec fn key_id(k: KeyView) -> Seq<char> {
    match k {
        KeyView::AmpChannels(id) => id,
        KeyView::KilowattHoursNetElement(id) => id,
        KeyView::DemandKilowattElements(id) => id,
        KeyView::DisplacementPowerFactorChannel(id) => id,
        KeyView::DisplacementPowerFactorElement(id) => id,
    }
}

/// The map one target list receives from a field list: each field whose
/// value is numeric text and whose name decodes into the category, keyed by
/// the decoded identifier, later fields overriding earlier ones.
pub open spec fn category_map(fs: Seq<(Seq<char>, Seq<char>)>, c: Category) -> Map<
    Seq<char>,
    Seq<char>,
>
    decreases fs.len(),
{
    if fs.len() == 0 {
        Map::empty()
    } else {
        let prev = category_map(fs.drop_last(), c);
        let e = fs.last();
        match spec_raw_key(e.0) {
            Some(k) => {
                if is_float_text(e.1) && key_category(k) == c {
                    prev.insert(key_id(k), e.1)
                } else {
                    prev
                }
            },
            None => prev,
        }
    }
}

/// One step of `category_map`, phrased over `push` for loop proofs.
pub proof fn lemma_category_map_push(fs: Seq<(Seq<char>, Seq<char>)>, x: (Seq<char>, Seq<char>), c: Category)
    ensures
        category_map(fs.push(x), c) == (match spec_raw_key(x.0) {
            Some(k) => {
                if is_float_text(x.1) && key_category(k) == c {
                    category_map(fs, c).insert(key_id(k), x.1)
                } else {
                    category_map(fs, c)
                }
            },
            None => category_map(fs, c),
        }),
{
    assert(fs.push(x).drop_last() =~= fs);
    assert(fs.push(x).last() == x);
}

/// Every field whose value is numeric text has a decodable name.
pub open spec fn fields_ok(fs: Seq<(Seq<char>, Seq<char>)>) -> bool {
    forall|i: int|
        0 <= i < fs.len() ==> (is_float_text((#[trigger] fs[i]).1) ==> spec_raw_key(fs[i].0)
            is Some)
}

/// The text handed to the timestamp parse: date and time joined by one
/// space.
pub open spec fn spec_stamp_text(date: Seq<char>, time: Seq<char>) -> Seq<char> {
    date + seq![' '] + time
}

/// Updating the value at one key of a unique-keyed entry list is an insert
/// on the map it stands for.
proof fn lemma_assoc_update(es: Seq<(Seq<char>, Seq<char>)>, j: int, v: Seq<char>)
    requires
        0 <= j < es.len(),
        entries_unique(es),
    ensures
        assoc_map(es.update(j, (es[j].0, v))) == assoc_map(es).insert(es[j].0, v),
    decreases es.len(),
{
    let es2 = es.update(j, (es[j].0, v));
    if j == es.len() - 1 {
        assert(es2.drop_last() =~= es.drop_last());
        assert(es2.last() == (es[j].0, v));
        assert(assoc_map(es.drop_last()).insert(es[j].0, v) =~= assoc_map(es.drop_last()).insert(
            es[j].0,
            es[j].1,
        ).insert(es[j].0, v));
    } else {
        assert(es2.drop_last() =~= es.drop_last().update(j, (es[j].0, v)));
        assert(forall|a: int, b: int|
            0 <= a < b < es.drop_last().len() ==> (#[trigger] es.drop_last()[a]).0 != (
            #[trigger] es.drop_last()[b]).0);
        assert(es.drop_last()[j] == es[j]);
        lemma_assoc_update(es.drop_last(), j, v);
        assert(es2.last() == es.last());
        assert(es[j].0 != es.last().0);
        assert((assoc_map(es.drop_last()).insert(es[j].0, v)).insert(es.last().0, es.last().1)
            =~= (assoc_map(es.drop_last()).insert(es.last().0, es.last().1)).insert(es[j].0, v));
    }
}

/// Insert one measurement, overriding an entry with the same identifier.
#[verifier::loop_isolation(false)]
fn insert_measurement(es: &mut Measurements, id: String, value: String)
    requires
        measurements_wf(old(es).deep_view()),
        is_float_text(value@),
    ensures
        measurements_wf(final(es).deep_view()),
        assoc_map(final(es).deep_view()) == assoc_map(old(es).deep_view()).insert(id@, value@),
{
    let ghost idv = id@;
    let ghost valv = value@;
    let n = es.len();
    let mut j: usize = 0;
    while j < n
        invariant
            j <= n,
            n == es.len(),
            *es == *old(es),
            id@ == idv,
            value@ == valv,
            forall|k: int| 0 <= k < j ==> (#[trigger] old(es).deep_view()[k]).0 != idv,
        decreases n - j,
    {
        let e = &es[j];
        let hit = str_eq(e.0.as_str(), id.as_str());
        proof {
            assert(old(es).deep_view()[j as int] == old(es)@[j as int].deep_view());
            assert(hit == (old(es).deep_view()[j as int].0 == idv));
        }
        if hit {
            proof {
                assert(old(es).deep_view()[j as int].0 == idv);
            }
            es.set(j, (id, value));
            proof {
                let oldv = old(es).deep_view();
                let newv = es.deep_view();
                assert(newv =~= oldv.update(j as int, (idv, valv)));
                assert(entries_unique(oldv));
                lemma_assoc_update(oldv, j as int, valv);
                assert(forall|k: int| 0 <= k < newv.len() ==> (#[trigger] newv[k]).0 == oldv[k].0);
                assert(forall|k: int| 0 <= k < newv.len() ==> is_float_text((#[trigger] newv[k]).1));
                assert(entries_unique(newv));
            }
            return;
        }
        j += 1;
    }
    es.push((id, value));
    proof {
        assert(es.deep_view() =~= old(es).deep_view().push((idv, valv)));
        assert(es.deep_view().drop_last() =~= old(es).deep_view());
        assert(forall|k: int|
            0 <= k < old(es).deep_view().len() ==> es.deep_view()[k] == old(es).deep_view()[k]);
    }
}

/// Normalize one flat response row into a reading.  The date and time
/// joined by a space must parse as `YYYY-MM-DD HH:MM`; every remaining
/// field whose value is numeric text is routed by its decoded name into the
/// matching measurement list, later fields overriding earlier ones on a
/// repeated identifier; a field whose value is not numeric text is dropped
/// silently.  An unparseable timestamp, or a numeric field whose name does
/// not decode, breaks the vendor's data contract and fails.
pub fn normalize_topic(date: &str, time: &str, fields: &Vec<(String, String)>) -> (r: crate::Result<
    Topic,
>)
    ensures
        match r {
            Ok(t) => {
                &&& timestamp_parse(spec_stamp_text(date@, time@)) == Some(t.time)
                &&& fields_ok(fields.deep_view())
                &&& t.wf()
                &&& assoc_map(t.amps_channels.deep_view()) == category_map(
                    fields.deep_view(),
                    Category::Amp,
                )
                &&& assoc_map(t.kilowatt_hours_net_elements.deep_view()) == category_map(
                    fields.deep_view(),
                    Category::KwhNet,
                )
                &&& assoc_map(t.demand_kilowatt_elements.deep_view()) == category_map(
                    fields.deep_view(),
                    Category::DemandKw,
                )
                &&& assoc_map(t.displacement_power_factor.channels.deep_view()) == category_map(
                    fields.deep_view(),
                    Category::DpfChannel,
                )
                &&& assoc_map(t.displacement_power_factor.elements.deep_view()) == category_map(
                    fields.deep_view(),
                    Category::DpfElement,
                )
            },
            Err(e) => {
                &&& e is Schema
                &&& (timestamp_parse(spec_stamp_text(date@, time@)) is None || !fields_ok(
                    fields.deep_view(),
                ))
            },
        },
{
    let mut stamp = String::from_str(date);
    stamp.append(" ");
    stamp.append(time);
    proof {
        reveal_strlit(" ");
        assert(stamp@ =~= spec_stamp_text(date@, time@));
    }
    let ts = match parse_timestamp(stamp.as_str()) {
        Some(t) => t,
        None => {
            return Err(
                Error::Schema(
                    String::from_str("timestamp did not parse under format YYYY-MM-DD HH:MM"),
                ),
            );
        },
    };
    let ghost fs = fields.deep_view();
    let mut amps: Measurements = Vec::new();
    let mut kwh: Measurements = Vec::new();
    let mut demand: Measurements = Vec::new();
    let mut dpf_ch: Measurements = Vec::new();
    let mut dpf_el: Measurements = Vec::new();
    let mut i: usize = 0;
    proof {
        assert(fs.take(0int) =~= Seq::<(Seq<char>, Seq<char>)>::empty());
        assert(amps.deep_view() =~= Seq::<(Seq<char>, Seq<char>)>::empty());
        assert(kwh.deep_view() =~= Seq::<(Seq<char>, Seq<char>)>::empty());
        assert(demand.deep_view() =~= Seq::<(Seq<char>, Seq<char>)>::empty());
        assert(dpf_ch.deep_view() =~= Seq::<(Seq<char>, Seq<char>)>::empty());
        assert(dpf_el.deep_view() =~= Seq::<(Seq<char>, Seq<char>)>::empty());
    }
    while i < fields.len()
        invariant
            i <= fields.len(),
            fs == fields.deep_view(),
            fs.len() == fields@.len(),
            forall|k: int|
                0 <= k < i ==> (is_float_text((#[trigger] fs[k]).1) ==> spec_raw_key(fs[k].0)
                    is Some),
            measurements_wf(amps.deep_view()),
            measurements_wf(kwh.deep_view()),
            measurements_wf(demand.deep_view()),
            measurements_wf(dpf_ch.deep_view()),
            measurements_wf(dpf_el.deep_view()),
            assoc_map(amps.deep_view()) == category_map(fs.take(i as int), Category::Amp),
            assoc_map(kwh.deep_view()) == category_map(fs.take(i as int), Category::KwhNet),
            assoc_map(demand.deep_view()) == category_map(fs.take(i as int), Category::DemandKw),
            assoc_map(dpf_ch.deep_view()) == category_map(fs.take(i as int), Category::DpfChannel),
            assoc_map(dpf_el.deep_view()) == category_map(fs.take(i as int), Category::DpfElement),
        decreases fields.len() - i,
    {
        proof {
            assert(fs.take(i + 1) =~= fs.take(i as int).push(fs[i as int]));
            lemma_category_map_push(fs.take(i as int), fs[i as int], Category::Amp);
            lemma_category_map_push(fs.take(i as int), fs[i as int], Category::KwhNet);
            lemma_category_map_push(fs.take(i as int), fs[i as int], Category::DemandKw);
            lemma_category_map_push(fs.take(i as int), fs[i as int], Category::DpfChannel);
            lemma_category_map_push(fs.take(i as int), fs[i as int], Category::DpfElement);
        }
        let e = &fields[i];
        proof {
            assert(fs[i as int] == (e.0@, e.1@));
        }
        if is_float_literal(e.1.as_str()) {
            match raw_key_to_key(e.0.clone()) {
                None => {
                    proof {
                        assert(is_float_text(fs[i as int].1));
                        assert(spec_raw_key(fs[i as int].0) is None);
                        assert(!fields_ok(fs));
                    }
                    return Err(
                        Error::Schema(
                            String::from_str("a numeric field's name did not decode as a key"),
                        ),
                    );
                },
                Some(key) => {
                    let value = e.1.clone();
                    match key {
                        Key::AmpChannels(id) => insert_measurement(&mut amps, id, value),
                        Key::KilowattHoursNetElement(id) => insert_measurement(&mut kwh, id, value),
                        Key::DemandKilowattElements(id) => insert_measurement(
                            &mut demand,
                            id,
                            value,
                        ),
                        Key::DisplacementPowerFactorChannel(id) => insert_measurement(
                            &mut dpf_ch,
                            id,
                            value,
                        ),
                        Key::DisplacementPowerFactorElement(id) => insert_measurement(
                            &mut dpf_el,
                            id,
                            value,
                        ),
                    }
                },
            }
        }
        i += 1;
    }
    proof {
        assert(fs.take(i as int) =~= fs);
    }
    Ok(
        Topic {
            time: ts,
            amps_channels: amps,
            kilowatt_hours_net_elements: kwh,
            demand_kilowatt_elements: demand,
            displacement_power_factor: DisplacementPowerFactor {
                channels: dpf_ch,
                elements: dpf_el,
            },
        },
    )
}

/// The data envelope: the decoded headers and one reading per returned
/// timestamp row.
#[derive(Debug, Clone, Default, PartialEq)]
pub struct Data {
    pub headers: Vec<Key>,
    pub topics: Vec<Topic>,
}

/// The shape of one response row: an object whose every value is a string,
/// with string `date` and `time` fields.
pub open spec fn spec_row_shape(j: Json) -> bool {
    match j {
        Json::Obj(m) => {
            &&& m.dom().contains("date"@) && m["date"@] is Str
            &&& m.dom().contains("time"@) && m["time"@] is Str
            &&& forall|k: Seq<char>| #[trigger] m.dom().contains(k) ==> m[k] is Str
        },
        _ => false,
    }
}

/// A row's measurement fields: everything but `date` and `time`.
pub open spec fn row_fields(m: Map<Seq<char>, Json>) -> Map<Seq<char>, Json> {
    m.remove("date"@).remove("time"@)
}

/// The text a row's timestamp is parsed from.
pub open spec fn spec_row_stamp(m: Map<Seq<char>, Json>) -> Seq<char> {
    spec_stamp_text(m["date"@]->Str_0, m["time"@]->Str_0)
}

/// Whether `es` lists exactly the string fields of `m`, each key once.
pub open spec fn enumerates(es: Seq<(Seq<char>, Seq<char>)>, m: Map<Seq<char>, Json>) -> bool {
    &&& entries_unique(es)
    &&& forall|i: int|
        0 <= i < es.len() ==> m.dom().contains((#[trigger] es[i]).0) && m[es[i].0] == Json::Str(
            es[i].1,
        )
    &&& forall|k: Seq<char>|
        #[trigger] m.dom().contains(k) ==> exists|i: int|
            0 <= i < es.len() && (#[trigger] es[i]).0 == k
}

/// Whether a well-shaped row normalizes: its timestamp text parses and, in
/// any listing of its fields, every numeric field's name decodes.
pub open spec fn spec_row_good(m: Map<Seq<char>, Json>) -> bool {
    &&& timestamp_parse(spec_row_stamp(m)) is Some
    &&& forall|es: Seq<(Seq<char>, Seq<char>)>|
        #[trigger] enumerates(es, row_fields(m)) ==> fields_ok(es)
}

/// The reading's lists all match one listing of the row's fields.
pub open spec fn topic_matches_fields(t: Topic, es: Seq<(Seq<char>, Seq<char>)>) -> bool {
    &&& t.wf()
    &&& assoc_map(t.amps_channels.deep_view()) == category_map(es, Category::Amp)
    &&& assoc_map(t.kilowatt_hours_net_elements.deep_view()) == category_map(es, Category::KwhNet)
    &&& assoc_map(t.demand_kilowatt_elements.deep_view()) == category_map(es, Category::DemandKw)
    &&& assoc_map(t.displacement_power_factor.channels.deep_view()) == category_map(
        es,
        Category::DpfChannel,
    )
    &&& assoc_map(t.displacement_power_factor.elements.deep_view()) == category_map(
        es,
        Category::DpfElement,
    )
}

/// The reading a well-shaped row normalizes to: its timestamp is the parse
/// of the row's stamp text, and its lists match some listing of the row's
/// fields.
pub open spec fn topic_matches_row(t: Topic, m: Map<Seq<char>, Json>) -> bool {
    &&& timestamp_parse(spec_row_stamp(m)) == Some(t.time)
    &&& exists|es: Seq<(Seq<char>, Seq<char>)>|
        #[trigger] enumerates(es, row_fields(m)) && topic_matches_fields(t, es)
}

/// Two listings of the same fields agree on whether every numeric field
/// decodes.
proof fn lemma_fields_ok_transfer(
    es1: Seq<(Seq<char>, Seq<char>)>,
    es2: Seq<(Seq<char>, Seq<char>)>,
    m: Map<Seq<char>, Json>,
)
    requires
        enumerates(es1, m),
        enumerates(es2, m),
        fields_ok(es1),
    ensures
        fields_ok(es2),
{
    assert forall|i: int|
        0 <= i < es2.len() && is_float_text((#[trigger] es2[i]).1) implies spec_raw_key(
        es2[i].0,
    ) is Some by {
        let k = es2[i].0;
        assert(m.dom().contains(k));
        let j = choose|j: int| 0 <= j < es1.len() && (#[trigger] es1[j]).0 == k;
        assert(m[k] == Json::Str(es1[j].1));
        assert(m[k] == Json::Str(es2[i].1));
        assert(es1[j].1 == es2[i].1);
    }
}

/// The string fields of the first `upto` entries whose key is neither
/// `date` nor `time`, in order.
pub open spec fn filtered_entries(gs: Seq<(Seq<char>, Json)>, upto: int) -> Seq<
    (Seq<char>, Seq<char>),
>
    decreases upto,
{
    if upto <= 0 {
        Seq::empty()
    } else {
        let prev = filtered_entries(gs, upto - 1);
        let e = gs[upto - 1];
        if e.0 == "date"@ || e.0 == "time"@ {
            prev
        } else {
            match e.1 {
                Json::Str(s) => prev.push((e.0, s)),
                _ => prev,
            }
        }
    }
}

/// What `filtered_entries` keeps: each kept entry is one of the first
/// `upto` fields, every eligible field is kept, and kept keys are unique.
#[verifier::rlimit(100)]
#[verifier::spinoff_prover]
proof fn lemma_filtered_props(gs: Seq<(Seq<char>, Json)>, upto: int)
    requires
        0 <= upto <= gs.len(),
        forall|i: int, j: int|
            0 <= i < j < gs.len() ==> (#[trigger] gs[i]).0 != (#[trigger] gs[j]).0,
    ensures
        forall|j: int|
            0 <= j < filtered_entries(gs, upto).len() ==> exists|i: int|
                0 <= i < upto && (#[trigger] gs[i]).0 == (#[trigger] filtered_entries(gs, upto)[j]).0
                    && gs[i].1 == Json::Str(filtered_entries(gs, upto)[j].1) && gs[i].0 != "date"@
                    && gs[i].0 != "time"@,
        forall|i: int|
            0 <= i < upto && (#[trigger] gs[i]).0 != "date"@ && gs[i].0 != "time"@ && gs[i].1
                is Str ==> exists|j: int|
                0 <= j < filtered_entries(gs, upto).len() && #[trigger] filtered_entries(gs, upto)[j]
                    == (gs[i].0, gs[i].1->Str_0),
        entries_unique(filtered_entries(gs, upto)),
    decreases upto,
{
    if upto > 0 {
        lemma_filtered_props(gs, upto - 1);
        let prev = filtered_entries(gs, upto - 1);
        let cur = filtered_entries(gs, upto);
        let e = gs[upto - 1];
        if e.0 == "date"@ || e.0 == "time"@ || !(e.1 is Str) {
            assert(cur == prev);
            assert forall|j: int| 0 <= j < cur.len() implies exists|i: int|
                0 <= i < upto && (#[trigger] gs[i]).0 == (#[trigger] cur[j]).0 && gs[i].1
                    == Json::Str(cur[j].1) && gs[i].0 != "date"@ && gs[i].0 != "time"@ by {
                let i0 = choose|i0: int|
                    0 <= i0 < upto - 1 && (#[trigger] gs[i0]).0 == prev[j].0 && gs[i0].1
                        == Json::Str(prev[j].1) && gs[i0].0 != "date"@ && gs[i0].0 != "time"@;
                assert(0 <= i0 < upto && gs[i0].0 == cur[j].0 && gs[i0].1 == Json::Str(cur[j].1)
                    && gs[i0].0 != "date"@ && gs[i0].0 != "time"@);
            }
        } else {
            let s = e.1->Str_0;
            assert(cur == prev.push((e.0, s)));
            assert(forall|j: int| 0 <= j < prev.len() ==> cur[j] == prev[j]);
            assert(cur[prev.len() as int] == (e.0, s));
            assert forall|j: int| 0 <= j < cur.len() implies exists|i: int|
                0 <= i < upto && (#[trigger] gs[i]).0 == (#[trigger] cur[j]).0 && gs[i].1
                    == Json::Str(cur[j].1) && gs[i].0 != "date"@ && gs[i].0 != "time"@ by {
                if j < prev.len() {
                    let i0 = choose|i0: int|
                        0 <= i0 < upto - 1 && (#[trigger] gs[i0]).0 == prev[j].0 && gs[i0].1
                            == Json::Str(prev[j].1) && gs[i0].0 != "date"@ && gs[i0].0 != "time"@;
                    assert(0 <= i0 < upto && gs[i0].0 == cur[j].0 && gs[i0].1 == Json::Str(
                        cur[j].1,
                    ) && gs[i0].0 != "date"@ && gs[i0].0 != "time"@);
                } else {
                    assert(cur[j] == (e.0, s));
                    assert(0 <= upto - 1 < upto && gs[upto - 1].0 == cur[j].0 && gs[upto - 1].1
                        == Json::Str(cur[j].1) && gs[upto - 1].0 != "date"@ && gs[upto - 1].0
                        != "time"@);
                }
            }
            assert forall|i: int|
                0 <= i < upto && (#[trigger] gs[i]).0 != "date"@ && gs[i].0 != "time"@ && gs[i].1
                    is Str implies exists|j: int|
                0 <= j < cur.len() && #[trigger] cur[j] == (gs[i].0, gs[i].1->Str_0) by {
                if i == upto - 1 {
                    assert(cur[prev.len() as int] == (gs[i].0, gs[i].1->Str_0));
                } else {
                    let j0 = choose|j0: int|
                        0 <= j0 < prev.len() && #[trigger] prev[j0] == (gs[i].0, gs[i].1->Str_0);
                    assert(cur[j0] == (gs[i].0, gs[i].1->Str_0));
                }
            }
            assert forall|j: int| 0 <= j < prev.len() implies cur[j].0 != e.0 by {
                let i0 = choose|i0: int|
                    0 <= i0 < upto - 1 && (#[trigger] gs[i0]).0 == prev[j].0 && gs[i0].1
                        == Json::Str(prev[j].1) && gs[i0].0 != "date"@ && gs[i0].0 != "time"@;
                assert(gs[i0].0 != gs[upto - 1].0);
            }
            assert(entries_unique(cur));
        }
    }
}

/// The entry list built by filtering a full listing of an all-string
/// object's fields lists exactly the measurement fields of the object.
proof fn lemma_filtered_enumerates(gs: Seq<(Seq<char>, Json)>, m: Map<Seq<char>, Json>)
    requires
        forall|i: int, j: int|
            0 <= i < j < gs.len() ==> (#[trigger] gs[i]).0 != (#[trigger] gs[j]).0,
        forall|i: int|
            0 <= i < gs.len() ==> m.dom().contains((#[trigger] gs[i]).0) && m[gs[i].0] == gs[i].1,
        forall|k: Seq<char>|
            #[trigger] m.dom().contains(k) ==> exists|i: int|
                0 <= i < gs.len() && (#[trigger] gs[i]).0 == k,
        forall|i: int| 0 <= i < gs.len() ==> (#[trigger] gs[i]).1 is Str,
    ensures
        enumerates(filtered_entries(gs, gs.len() as int), row_fields(m)),
{
    lemma_filtered_props(gs, gs.len() as int);
    let fe = filtered_entries(gs, gs.len() as int);
    let rf = row_fields(m);
    assert forall|j: int|
        0 <= j < fe.len() implies rf.dom().contains((#[trigger] fe[j]).0) && rf[fe[j].0]
        == Json::Str(fe[j].1) by {
        let i0 = choose|i0: int|
            0 <= i0 < gs.len() && (#[trigger] gs[i0]).0 == fe[j].0 && gs[i0].1 == Json::Str(
                fe[j].1,
            ) && gs[i0].0 != "date"@ && gs[i0].0 != "time"@;
        assert(m.dom().contains(gs[i0].0));
    }
    assert forall|k: Seq<char>| #[trigger] rf.dom().contains(k) implies exists|i: int|
        0 <= i < fe.len() && (#[trigger] fe[i]).0 == k by {
        assert(m.dom().contains(k));
        let i0 = choose|i0: int| 0 <= i0 < gs.len() && (#[trigger] gs[i0]).0 == k;
        assert(gs[i0].1 is Str);
        assert(k != "date"@ && k != "time"@);
        assert(exists|j: int|
            0 <= j < fe.len() && #[trigger] fe[j] == (gs[i0].0, gs[i0].1->Str_0));
    }
}

/// Extract one reading from one parsed row.  Nothing for a row without the
/// row shape; a schema error for a shaped row that does not normalize; the
/// reading otherwise.
#[verifier::loop_isolation(false)]
#[verifier::rlimit(50)]
fn extract_row(v: &serde_json::Value) -> (r: Option<crate::Result<Topic>>)
    ensures
        match r {
            None => !spec_row_shape(json_model(*v)),
            Some(res) => spec_row_shape(json_model(*v)) && (match res {
                Ok(t) => spec_row_good(json_model(*v)->Obj_0) && topic_matches_row(
                    t,
                    json_model(*v)->Obj_0,
                ),
                Err(e) => e is Schema && !spec_row_good(json_model(*v)->Obj_0),
            }),
        },
{
    let es = match json_object_entries(v) {
        Some(x) => x,
        None => {
            return None;
        },
    };
    let ghost m = json_model(*v)->Obj_0;
    let dv = match json_get(v, "date") {
        Some(x) => x,
        None => {
            return None;
        },
    };
    let date = match json_as_str(dv) {
        Some(x) => x,
        None => {
            return None;
        },
    };
    let tv = match json_get(v, "time") {
        Some(x) => x,
        None => {
            return None;
        },
    };
    let time = match json_as_str(tv) {
        Some(x) => x,
        None => {
            return None;
        },
    };
    let ghost gs: Seq<(Seq<char>, Json)> = Seq::new(
        es@.len(),
        |i: int| (es@[i].0@, json_model(es@[i].1)),
    );
    let mut fields: Vec<(String, String)> = Vec::new();
    let mut i: usize = 0;
    proof {
        assert(fields.deep_view() =~= filtered_entries(gs, 0int));
    }
    while i < es.len()
        invariant
            i <= es.len(),
            gs.len() == es@.len(),
            forall|k: int| 0 <= k < i ==> (#[trigger] gs[k]).1 is Str,
            fields.deep_view() == filtered_entries(gs, i as int),
        decreases es.len() - i,
    {
        let e = &es[i];
        proof {
            assert(gs[i as int] == (e.0@, json_model(e.1)));
        }
        let sv = match json_as_str(&e.1) {
            Some(x) => x,
            None => {
                proof {
                    let gk = gs[i as int].0;
                    assert(m.dom().contains(gk) && m[gk] == gs[i as int].1);
                }
                return None;
            },
        };
        let is_date = str_eq(e.0.as_str(), "date");
        let is_time = str_eq(e.0.as_str(), "time");
        if is_date || is_time {
            proof {
                assert(filtered_entries(gs, i + 1) == filtered_entries(gs, i as int));
            }
        } else {
            let ghost prev = fields.deep_view();
            fields.push((e.0.clone(), String::from_str(sv)));
            proof {
                assert(fields.deep_view() =~= prev.push((e.0@, sv@)));
                assert(filtered_entries(gs, i + 1) == filtered_entries(gs, i as int).push(
                    (e.0@, sv@),
                ));
            }
        }
        i += 1;
    }
    proof {
        assert forall|k: Seq<char>| m.dom().contains(k) implies m[k] is Str by {
            let idx = choose|idx: int| 0 <= idx < es@.len() && (#[trigger] es@[idx]).0@ == k;
            assert(gs[idx].1 is Str);
            assert(m[k] == gs[idx].1);
        }
        assert(spec_row_shape(json_model(*v)));
        assert forall|k: Seq<char>| #[trigger] m.dom().contains(k) implies exists|i2: int|
            0 <= i2 < gs.len() && (#[trigger] gs[i2]).0 == k by {
            let idx = choose|idx: int| 0 <= idx < es@.len() && (#[trigger] es@[idx]).0@ == k;
            assert(gs[idx].0 == k);
        }
        lemma_filtered_enumerates(gs, m);
        assert(enumerates(fields.deep_view(), row_fields(m)));
        assert(date@ == m["date"@]->Str_0);
        assert(time@ == m["time"@]->Str_0);
    }
    match normalize_topic(date, time, &fields) {
        Ok(t) => {
            proof {
                assert(timestamp_parse(spec_row_stamp(m)) == Some(t.time));
                assert(topic_matches_fields(t, fields.deep_view()));
                assert forall|es2: Seq<(Seq<char>, Seq<char>)>|
                    #[trigger] enumerates(es2, row_fields(m)) implies fields_ok(es2) by {
                    lemma_fields_ok_transfer(fields.deep_view(), es2, row_fields(m));
                }
                assert(spec_row_good(m));
            }
            Some(Ok(t))
        },
        Err(er) => {
            proof {
                if timestamp_parse(spec_row_stamp(m)) is Some {
                    assert(!fields_ok(fields.deep_view()));
                    assert(!spec_row_good(m));
                }
            }
            Some(Err(er))
        },
    }
}

/// A header is kept unless it is the literal `date` or `time`, which are
/// consumed by the readings and never appear as a key.
pub open spec fn header_keep(h: Seq<char>) -> bool {
    h != "date"@ && h != "time"@
}

/// The headers that are kept, in order.
pub open spec fn kept_headers(hs: Seq<Seq<char>>) -> Seq<Seq<char>>
    decreases hs.len(),
{
    if hs.len() == 0 {
        Seq::empty()
    } else {
        let prev = kept_headers(hs.drop_last());
        if header_keep(hs.last()) {
            prev.push(hs.last())
        } else {
            prev
        }
    }
}

/// The decoded keys of a header list, in order; nothing when some header
/// does not decode.
pub open spec fn decode_headers(hs: Seq<Seq<char>>) -> Option<Seq<KeyView>>
    decreases hs.len(),
{
    if hs.len() == 0 {
        Some(Seq::empty())
    } else {
        match (decode_headers(hs.drop_last()), spec_raw_key(hs.last())) {
            (Some(p), Some(k)) => Some(p.push(k)),
            _ => None,
        }
    }
}

/// One step of `kept_headers`, phrased over `push` for loop proofs.
proof fn lemma_kept_headers_push(hs: Seq<Seq<char>>, x: Seq<char>)
    ensures
        kept_headers(hs.push(x)) == (if header_keep(x) {
            kept_headers(hs).push(x)
        } else {
            kept_headers(hs)
        }),
{
    assert(hs.push(x).drop_last() =~= hs);
    assert(hs.push(x).last() == x);
}

/// One step of `decode_headers`, phrased over `push` for loop proofs.
proof fn lemma_decode_headers_push(hs: Seq<Seq<char>>, x: Seq<char>)
    ensures
        decode_headers(hs.push(x)) == (match (decode_headers(hs), spec_raw_key(x)) {
            (Some(p), Some(k)) => Some(p.push(k)),
            _ => None,
        }),
{
    assert(hs.push(x).drop_last() =~= hs);
    assert(hs.push(x).last() == x);
}

/// A header that fails to decode in a kept prefix fails the whole list.
proof fn lemma_decode_headers_none(hs: Seq<Seq<char>>, i: int)
    requires
        0 <= i <= hs.len(),
        decode_headers(kept_headers(hs.take(i))) is None,
    ensures
        decode_headers(kept_headers(hs)) is None,
    decreases hs.len() - i,
{
    if i == hs.len() {
        assert(hs.take(i) =~= hs);
    } else {
        assert(hs.take(i + 1) =~= hs.take(i).push(hs[i]));
        lemma_kept_headers_push(hs.take(i), hs[i]);
        if header_keep(hs[i]) {
            lemma_decode_headers_push(kept_headers(hs.take(i)), hs[i]);
        }
        lemma_decode_headers_none(hs, i + 1);
    }
}

/// The raw header strings of a shaped data envelope.
pub open spec fn spec_raw_headers(j: Json) -> Seq<Seq<char>> {
    str_items(j->Obj_0["headers"@]->Arr_0)->0
}

/// The row models of a shaped data envelope.
pub open spec fn spec_rows(j: Json) -> Seq<Json> {
    j->Obj_0["topics"@]->Arr_0
}

/// The shape of the data envelope: an object with a `headers` array of
/// strings and a `topics` array of shaped rows.
pub open spec fn spec_data_shape(j: Json) -> bool {
    match j {
        Json::Obj(m) => {
            &&& m.dom().contains("headers"@) && m["headers"@] is Arr && str_items(
                m["headers"@]->Arr_0,
            ) is Some
            &&& m.dom().contains("topics"@) && m["topics"@] is Arr
            &&& forall|i: int|
                0 <= i < m["topics"@]->Arr_0.len() ==> spec_row_shape(
                    #[trigger] m["topics"@]->Arr_0[i],
                )
        },
        _ => false,
    }
}

/// Whether every row of a shaped data envelope normalizes.
pub open spec fn spec_rows_good(j: Json) -> bool {
    forall|i: int|
        0 <= i < spec_rows(j).len() ==> spec_row_good((#[trigger] spec_rows(j)[i])->Obj_0)
}

/// Whether a shaped data envelope converts without breaking the vendor's
/// data contract: every kept header decodes and every row normalizes.
pub open spec fn spec_data_ok(j: Json) -> bool {
    decode_headers(kept_headers(spec_raw_headers(j))) is Some && spec_rows_good(j)
}

/// Extract a [`Data`] from a parsed body.  Nothing for a body without the
/// data shape; a schema error for a shaped body that breaks the vendor's
/// data contract; the converted envelope otherwise.
#[verifier::loop_isolation(false)]
#[verifier::rlimit(50)]
fn extract_data(v: &serde_json::Value) -> (r: Option<crate::Result<Data>>)
    ensures
        match r {
            None => !spec_data_shape(json_model(*v)),
            Some(res) => spec_data_shape(json_model(*v)) && (match res {
                Ok(d) => {
                    &&& spec_data_ok(json_model(*v))
                    &&& d.headers.deep_view() == decode_headers(
                        kept_headers(spec_raw_headers(json_model(*v))),
                    )->0
                    &&& d.topics@.len() == spec_rows(json_model(*v)).len()
                    &&& forall|i: int|
                        0 <= i < spec_rows(json_model(*v)).len() ==> topic_matches_row(
                            #[trigger] d.topics@[i],
                            spec_rows(json_model(*v))[i]->Obj_0,
                        )
                },
                Err(e) => e is Schema && !spec_data_ok(json_model(*v)),
            }),
        },
{
    let ghost jm = json_model(*v);
    let hv = match json_get(v, "headers") {
        Some(x) => x,
        None => {
            return None;
        },
    };
    let harr = match json_as_array(hv) {
        Some(x) => x,
        None => {
            return None;
        },
    };
    let raw_headers = match extract_str_items(harr) {
        Some(x) => x,
        None => {
            return None;
        },
    };
    let tv = match json_get(v, "topics") {
        Some(x) => x,
        None => {
            return None;
        },
    };
    let rows = match json_as_array(tv) {
        Some(x) => x,
        None => {
            return None;
        },
    };
    let ghost rs = models_of(rows@);
    let mut topics_vec: Vec<Topic> = Vec::new();
    let mut first_err: Option<Error> = None;
    let mut i: usize = 0;
    while i < rows.len()
        invariant
            i <= rows.len(),
            rs.len() == rows@.len(),
            forall|k: int| 0 <= k < i ==> spec_row_shape(#[trigger] rs[k]),
            match first_err {
                None => topics_vec@.len() == i && forall|k: int|
                    0 <= k < i ==> spec_row_good((#[trigger] rs[k])->Obj_0) && topic_matches_row(
                        topics_vec@[k],
                        rs[k]->Obj_0,
                    ),
                Some(e) => e is Schema && exists|k: int|
                    0 <= k < i && !spec_row_good((#[trigger] rs[k])->Obj_0),
            },
        decreases rows.len() - i,
    {
        proof {
            assert(rs[i as int] == json_model(rows@[i as int]));
        }
        match extract_row(&rows[i]) {
            None => {
                proof {
                    if spec_data_shape(jm) {
                        assert(spec_row_shape(spec_rows(jm)[i as int]));
                    }
                }
                return None;
            },
            Some(res) => {
                let keep = first_err.is_none();
                match res {
                    Ok(t) => {
                        if keep {
                            topics_vec.push(t);
                        }
                    },
                    Err(e) => {
                        if keep {
                            first_err = Some(e);
                        }
                    },
                }
            },
        }
        i += 1;
    }
    let ghost hs = raw_headers.deep_view();
    let mut keys: Vec<Key> = Vec::new();
    let mut h: usize = 0;
    proof {
        assert(hs.take(0int) =~= Seq::<Seq<char>>::empty());
        assert(keys.deep_view() =~= Seq::<KeyView>::empty());
    }
    while h < raw_headers.len()
        invariant
            h <= raw_headers.len(),
            hs.len() == raw_headers@.len(),
            decode_headers(kept_headers(hs.take(h as int))) == Some(keys.deep_view()),
        decreases raw_headers.len() - h,
    {
        proof {
            assert(hs.take(h + 1) =~= hs.take(h as int).push(hs[h as int]));
            lemma_kept_headers_push(hs.take(h as int), hs[h as int]);
        }
        let hstr = &raw_headers[h];
        proof {
            assert(hs[h as int] == hstr@);
        }
        let is_date = str_eq(hstr.as_str(), "date");
        let is_time = str_eq(hstr.as_str(), "time");
        if !(is_date || is_time) {
            proof {
                lemma_decode_headers_push(kept_headers(hs.take(h as int)), hs[h as int]);
            }
            match raw_key_to_key(hstr.clone()) {
                None => {
                    proof {
                        lemma_decode_headers_none(hs, h + 1);
                    }
                    return Some(
                        Err(
                            Error::Schema(
                                String::from_str("a response header did not decode as a key"),
                            ),
                        ),
                    );
                },
                Some(kk) => {
                    let ghost prev = keys.deep_view();
                    let ghost kv = kk@;
                    keys.push(kk);
                    proof {
                        assert(keys.deep_view() =~= prev.push(kv));
                    }
                },
            }
        }
        h += 1;
    }
    proof {
        assert(hs.take(h as int) =~= hs);
    }
    match first_err {
        Some(e) => Some(Err(e)),
        None => Some(Ok(Data { headers: keys, topics: topics_vec })),
    }
}

/// Decode a response body against the data envelope.  A body of that shape
/// is converted — headers decoded with the `date` and `time` literals
/// removed, each row normalized into a reading — or fails as a schema error
/// when the conversion breaks the vendor's data contract; otherwise a body
/// matching the uniform error envelope fails with the vendor's message; any
/// other body fails as a serialization error.
pub fn decode_data(text: &str) -> (r: crate::Result<Data>)
    ensures
        match json_parse(text@) {
            None => r matches Err(e) && e is Serialization,
            Some(j) => {
                if spec_data_shape(j) {
                    if spec_data_ok(j) {
                        r matches Ok(d) && {
                            &&& d.headers.deep_view() == decode_headers(
                                kept_headers(spec_raw_headers(j)),
                            )->0
                            &&& d.topics@.len() == spec_rows(j).len()
                            &&& forall|i: int|
                                0 <= i < spec_rows(j).len() ==> topic_matches_row(
                                    #[trigger] d.topics@[i],
                                    spec_rows(j)[i]->Obj_0,
                                )
                        }
                    } else {
                        r matches Err(e) && e is Schema
                    }
                } else {
                    match spec_envelope(j) {
                        Some(msg) => r matches Err(e) && e matches Error::Api(s) && s@ == msg,
                        None => r matches Err(e) && e is Serialization,
                    }
                }
            },
        },
{
    match parse_json_text(text) {
        Err(msg) => Err(Error::Serialization(msg)),
        Ok(v) => match extract_data(&v) {
            Some(res) => res,
            None => match envelope_error(&v) {
                Some(msg) => Err(Error::Api(msg)),
                None => Err(
                    Error::Serialization(
                        String::from_str("response body did not match the data envelope"),
                    ),
                ),
            },
        },
    }
}

} // verus!
