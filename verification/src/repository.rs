//! The repository core: the flat string-attribute item model of the
//! external store, the serialize/deserialize pair between items and
//! compliance records, and the shared decode, filter and pagination
//! logic of the query operations.
use vstd::prelude::*;

use crate::date::{date_before, date_chars, format_date, parse_date, parse_date_chars, Date};
use crate::model::{env_label_chars, parse_env_chars, record_wf, Environment, Private, RecordV};
use crate::text::{
    check_decimal, i64_to_string, int_chars, is_decimal_chars, parse_i64, parse_int_chars, str_eq,
};

verus! {

/// A stored item could not be reconstructed into a compliance record,
/// or a store exchange failed.
#[derive(Clone, Copy, Debug)]
pub struct DDBError;

/// One attribute value as the store represents it: a string, or some
/// other attribute type this model does not carry.
#[derive(Debug)]
pub enum AttrValue {
    S(String),
    Other,
}

/// The mathematical shadow of an attribute value.
pub enum AttrV {
    S(Seq<char>),
    Other,
}

impl View for AttrValue {
    type V = AttrV;

    open spec fn view(&self) -> AttrV {
        match self {
            AttrValue::S(s) => AttrV::S(s@),
            AttrValue::Other => AttrV::Other,
        }
    }
}

impl Clone for AttrValue {
    fn clone(&self) -> (r: Self)
        ensures
            r@ == self@,
    {
        match self {
            AttrValue::S(s) => AttrValue::S(s.clone()),
            AttrValue::Other => AttrValue::Other,
        }
    }
}

/// One named attribute of a stored item.
#[derive(Debug)]
pub struct Attr {
    pub key: String,
    pub value: AttrValue,
}

impl Clone for Attr {
    fn clone(&self) -> (r: Self)
        ensures
            r.key@ == self.key@,
            r.value@ == self.value@,
    {
        Attr { key: self.key.clone(), value: self.value.clone() }
    }
}

/// One stored item: a flat map of string-keyed attributes, kept as the
/// sequence of attributes the store handed over. On duplicate keys the
/// first occurrence wins.
#[derive(Debug)]
pub struct Item {
    pub attrs: Vec<Attr>,
}

/// The map an attribute sequence stands for, earlier entries shadowing
/// later ones.
pub open spec fn attrs_map(s: Seq<Attr>) -> Map<Seq<char>, AttrV>
    decreases s.len(),
{
    if s.len() == 0 {
        Map::empty()
    } else {
        attrs_map(s.skip(1)).insert(s[0].key@, s[0].value@)
    }
}

impl View for Item {
    type V = Map<Seq<char>, AttrV>;

    open spec fn view(&self) -> Map<Seq<char>, AttrV> {
        attrs_map(self.attrs@)
    }
}

impl Clone for Item {
    fn clone(&self) -> (r: Self)
        ensures
            r@ == self@,
    {
        let mut attrs: Vec<Attr> = Vec::new();
        let mut i: usize = 0;
        while i < self.attrs.len()
            invariant
                i <= self.attrs@.len(),
                attrs@.len() == i,
                forall|j: int|
                    0 <= j < i ==> (#[trigger] attrs@[j]).key@ == self.attrs@[j].key@
                        && attrs@[j].value@ == self.attrs@[j].value@,
            decreases self.attrs@.len() - i,
        {
            attrs.push(self.attrs[i].clone());
            i += 1;
        }
        let r = Item { attrs };
        proof {
            lemma_attrs_map_congruent(r.attrs@, self.attrs@);
        }
        r
    }
}

/// Two attribute sequences that agree pointwise on keys and values
/// stand for the same map.
proof fn lemma_attrs_map_congruent(a: Seq<Attr>, b: Seq<Attr>)
    requires
        a.len() == b.len(),
        forall|j: int|
            0 <= j < a.len() ==> (#[trigger] a[j]).key@ == b[j].key@ && a[j].value@ == b[j].value@,
    ensures
        attrs_map(a) == attrs_map(b),
    decreases a.len(),
{
    if a.len() > 0 {
        assert(forall|j: int|
            0 <= j < a.skip(1).len() ==> (#[trigger] a.skip(1)[j]).key@ == b.skip(1)[j].key@
                && a.skip(1)[j].value@ == b.skip(1)[j].value@) by {
            assert(forall|j: int|
                0 <= j < a.skip(1).len() ==> a.skip(1)[j] == a[j + 1] && b.skip(1)[j] == b[j + 1]);
        }
        lemma_attrs_map_congruent(a.skip(1), b.skip(1));
    }
}

/// Looking a key up in an attribute sequence only depends on the
/// entries from the first match on.
proof fn lemma_attrs_map_skip(s: Seq<Attr>, k: Seq<char>, i: int)
    requires
        0 <= i <= s.len(),
        forall|j: int| 0 <= j < i ==> (#[trigger] s[j]).key@ != k,
    ensures
        attrs_map(s).contains_key(k) == attrs_map(s.skip(i)).contains_key(k),
        attrs_map(s).contains_key(k) ==> attrs_map(s)[k] == attrs_map(s.skip(i))[k],
    decreases i,
{
    if i > 0 {
        lemma_attrs_map_skip(s, k, i - 1);
        assert(s.skip(i - 1).skip(1) =~= s.skip(i));
        assert(s.skip(i - 1)[0] == s[i - 1]);
        assert(attrs_map(s.skip(i - 1)) == attrs_map(s.skip(i)).insert(s[i - 1].key@, s[i
            - 1].value@));
    } else {
        assert(s.skip(0) =~= s);
    }
}

/// The string value of a key in an item's map, `None` when the key is
/// absent or its attribute is not string-typed.
pub open spec fn attr_s(m: Map<Seq<char>, AttrV>, k: Seq<char>) -> Option<Seq<char>> {
    if m.contains_key(k) {
        match m[k] {
            AttrV::S(s) => Some(s),
            AttrV::Other => None,
        }
    } else {
        None
    }
}

/// Reads one attribute: `Ok(None)` when absent, an error when present
/// but not string-typed.
pub fn item_value(key: &str, item: &Item) -> (r: Result<Option<String>, DDBError>)
    ensures
        match r {
            Ok(Some(v)) => item@.contains_key(key@) && item@[key@] == AttrV::S(v@),
            Ok(None) => !item@.contains_key(key@),
            Err(_) => item@.contains_key(key@) && item@[key@] is Other,
        },
{
    let n = item.attrs.len();
    let mut i: usize = 0;
    while i < n
        invariant
            0 <= i <= n,
            n == item.attrs@.len(),
            forall|j: int| 0 <= j < i ==> (#[trigger] item.attrs@[j]).key@ != key@,
        decreases n - i,
    {
        let a = &item.attrs[i];
        if str_eq(a.key.as_str(), key) {
            proof {
                lemma_attrs_map_skip(item.attrs@, key@, i as int);
                assert(item.attrs@.skip(i as int).skip(1) =~= item.attrs@.skip(i as int + 1));
                assert(item.attrs@.skip(i as int)[0] == item.attrs@[i as int]);
            }
            match &a.value {
                AttrValue::S(s) => {
                    return Ok(Some(s.clone()));
                },
                AttrValue::Other => {
                    return Err(DDBError);
                },
            }
        }
        i += 1;
    }
    proof {
        lemma_attrs_map_skip(item.attrs@, key@, n as int);
        assert(item.attrs@.skip(n as int) =~= Seq::<Attr>::empty());
    }
    Ok(None)
}

/// Reads one attribute that must be present and string-typed.
pub fn required_item_value(key: &str, item: &Item) -> (r: Result<String, DDBError>)
    ensures
        match r {
            Ok(v) => attr_s(item@, key@) == Some(v@),
            Err(_) => attr_s(item@, key@) is None,
        },
{
    match item_value(key, item) {
        Ok(Some(value)) => Ok(value),
        Ok(None) => Err(DDBError),
        Err(DDBError) => Err(DDBError),
    }
}

/// What reconstructing a record from an item's map yields: every field
/// present, string-typed and well-typed, the dates in canonical form —
/// or nothing.
pub open spec fn parse_item_spec(m: Map<Seq<char>, AttrV>) -> Option<RecordV> {
    let name = attr_s(m, "name"@);
    let description = attr_s(m, "description"@);
    let ir = attr_s(m, "ir"@);
    let rte = attr_s(m, "resistance_to_earth"@);
    let volt = attr_s(m, "voltage"@);
    let tested_by = attr_s(m, "tested_by"@);
    let tag = attr_s(m, "pK"@);
    let envs = attr_s(m, "environment"@);
    let dates = attr_s(m, "date"@);
    let sk = attr_s(m, "sK"@);
    if name is Some && description is Some && ir is Some && rte is Some && volt is Some
        && tested_by is Some && tag is Some && envs is Some && dates is Some && sk is Some
        && is_decimal_chars(ir->0) && is_decimal_chars(rte->0) && parse_int_chars(volt->0) is Some
        && parse_env_chars(envs->0) is Some && parse_date_chars(dates->0) is Some
        && parse_date_chars(sk->0) is Some {
        Some(
            RecordV {
                name: name->0,
                description: description->0,
                ir: ir->0,
                resistance_to_earth: rte->0,
                voltage: parse_int_chars(volt->0)->0,
                tested_by: tested_by->0,
                tag_number: tag->0,
                environment: parse_env_chars(envs->0)->0,
                date: parse_date_chars(dates->0)->0,
                retest: parse_date_chars(sk->0)->0,
            },
        )
    } else {
        None
    }
}

/// Reconstructs a compliance record from a stored item; fails exactly
/// when a required attribute is absent, not string-typed, or fails its
/// typed parse.
pub fn item_to_private(item: &Item) -> (r: Result<Private, DDBError>)
    ensures
        match r {
            Ok(p) => parse_item_spec(item@) == Some(p@),
            Err(_) => parse_item_spec(item@) is None,
        },
{
    let env_text = match required_item_value("environment", item) {
        Ok(v) => v,
        Err(e) => {
            return Err(e);
        },
    };
    let env = match Environment::from_label(env_text.as_str()) {
        Some(value) => value,
        None => {
            return Err(DDBError);
        },
    };
    let date_text = match required_item_value("date", item) {
        Ok(v) => v,
        Err(e) => {
            return Err(e);
        },
    };
    let date = match parse_date(date_text.as_str()) {
        Ok(value) => value,
        Err(_) => {
            return Err(DDBError);
        },
    };
    let retest_text = match required_item_value("sK", item) {
        Ok(v) => v,
        Err(e) => {
            return Err(e);
        },
    };
    let retest = match parse_date(retest_text.as_str()) {
        Ok(value) => value,
        Err(_) => {
            return Err(DDBError);
        },
    };
    let name = match required_item_value("name", item) {
        Ok(v) => v,
        Err(e) => {
            return Err(e);
        },
    };
    let description = match required_item_value("description", item) {
        Ok(v) => v,
        Err(e) => {
            return Err(e);
        },
    };
    let ir = match required_item_value("ir", item) {
        Ok(v) => v,
        Err(e) => {
            return Err(e);
        },
    };
    if !check_decimal(ir.as_str()) {
        return Err(DDBError);
    }
    let resistance_to_earth = match required_item_value("resistance_to_earth", item) {
        Ok(v) => v,
        Err(e) => {
            return Err(e);
        },
    };
    if !check_decimal(resistance_to_earth.as_str()) {
        return Err(DDBError);
    }
    let voltage_text = match required_item_value("voltage", item) {
        Ok(v) => v,
        Err(e) => {
            return Err(e);
        },
    };
    let voltage = match parse_i64(voltage_text.as_str()) {
        Some(v) => v,
        None => {
            return Err(DDBError);
        },
    };
    let tag_number = match required_item_value("pK", item) {
        Ok(v) => v,
        Err(e) => {
            return Err(e);
        },
    };
    let tested_by = match required_item_value("tested_by", item) {
        Ok(v) => v,
        Err(e) => {
            return Err(e);
        },
    };
    let p = Private {
        name,
        description,
        ir,
        resistance_to_earth,
        voltage,
        tested_by,
        tag_number,
        environment: env,
        date,
        retest,
    };
    proof {
        assert(parse_item_spec(item@)->Some_0 =~= p@);
    }
    Ok(p)
}

/// The item a record is stored as: every field under its attribute
/// name, the tag number under the store's primary-key attribute and the
/// retest date under its sort-key attribute, all string-typed.
pub open spec fn record_map(r: RecordV) -> Map<Seq<char>, AttrV> {
    map![
        "name"@ => AttrV::S(r.name),
        "description"@ => AttrV::S(r.description),
        "ir"@ => AttrV::S(r.ir),
        "resistance_to_earth"@ => AttrV::S(r.resistance_to_earth),
        "voltage"@ => AttrV::S(int_chars(r.voltage)),
        "tested_by"@ => AttrV::S(r.tested_by),
        "pK"@ => AttrV::S(r.tag_number),
        "environment"@ => AttrV::S(env_label_chars(r.environment)),
        "date"@ => AttrV::S(date_chars(r.date)),
        "sK"@ => AttrV::S(date_chars(r.retest)),
    ]
}

/// The store's attribute names are pairwise distinct.
proof fn lemma_store_keys_distinct()
    ensures
        "name"@.len() == 4,
        "description"@.len() == 11,
        "ir"@.len() == 2,
        "resistance_to_earth"@.len() == 19,
        "voltage"@.len() == 7,
        "tested_by"@.len() == 9,
        "pK"@.len() == 2,
        "environment"@.len() == 11,
        "date"@.len() == 4,
        "sK"@.len() == 2,
        "name"@ != "date"@,
        "ir"@ != "pK"@,
        "ir"@ != "sK"@,
        "pK"@ != "sK"@,
        "description"@ != "environment"@,
{
    reveal_strlit("name");
    reveal_strlit("description");
    reveal_strlit("ir");
    reveal_strlit("resistance_to_earth");
    reveal_strlit("voltage");
    reveal_strlit("tested_by");
    reveal_strlit("pK");
    reveal_strlit("environment");
    reveal_strlit("date");
    reveal_strlit("sK");
    assert(("name"@)[0] == 'n' && ("date"@)[0] == 'd');
    assert(("ir"@)[0] == 'i' && ("pK"@)[0] == 'p' && ("sK"@)[0] == 's');
    assert(("description"@)[0] == 'd' && ("environment"@)[0] == 'e');
}

/// Each attribute of a serialized record reads back as that field.
pub proof fn lemma_record_map_lookup(r: RecordV)
    ensures
        attr_s(record_map(r), "name"@) == Some(r.name),
        attr_s(record_map(r), "description"@) == Some(r.description),
        attr_s(record_map(r), "ir"@) == Some(r.ir),
        attr_s(record_map(r), "resistance_to_earth"@) == Some(r.resistance_to_earth),
        attr_s(record_map(r), "voltage"@) == Some(int_chars(r.voltage)),
        attr_s(record_map(r), "tested_by"@) == Some(r.tested_by),
        attr_s(record_map(r), "pK"@) == Some(r.tag_number),
        attr_s(record_map(r), "environment"@) == Some(env_label_chars(r.environment)),
        attr_s(record_map(r), "date"@) == Some(date_chars(r.date)),
        attr_s(record_map(r), "sK"@) == Some(date_chars(r.retest)),
{
    lemma_store_keys_distinct();
}

/// Serializes a record to its stored item.
pub fn private_to_item(p: &Private) -> (r: Item)
    requires
        p.wf(),
    ensures
        r@ == record_map(p@),
{
    let mut attrs: Vec<Attr> = Vec::new();
    attrs.push(Attr { key: String::from_str("name"), value: AttrValue::S(p.name.clone()) });
    attrs.push(
        Attr { key: String::from_str("description"), value: AttrValue::S(p.description.clone()) },
    );
    attrs.push(Attr { key: String::from_str("ir"), value: AttrValue::S(p.ir.clone()) });
    attrs.push(
        Attr {
            key: String::from_str("resistance_to_earth"),
            value: AttrValue::S(p.resistance_to_earth.clone()),
        },
    );
    attrs.push(
        Attr { key: String::from_str("voltage"), value: AttrValue::S(i64_to_string(p.voltage)) },
    );
    attrs.push(
        Attr { key: String::from_str("tested_by"), value: AttrValue::S(p.tested_by.clone()) },
    );
    attrs.push(Attr { key: String::from_str("pK"), value: AttrValue::S(p.tag_number.clone()) });
    attrs.push(
        Attr { key: String::from_str("environment"), value: AttrValue::S(p.environment.label()) },
    );
    attrs.push(
        Attr { key: String::from_str("date"), value: AttrValue::S(format_date(&p.date)) },
    );
    attrs.push(Attr { key: String::from_str("sK"), value: AttrValue::S(format_date(&p.retest)) });
    let r = Item { attrs };
    proof {
        lemma_store_keys_distinct();
        let s = r.attrs@;
        assert(s.skip(9).skip(1) =~= Seq::<Attr>::empty());
        assert(attrs_map(s.skip(9)) == attrs_map(s.skip(9).skip(1)).insert(
            s.skip(9)[0].key@,
            s.skip(9)[0].value@,
        ));
        lemma_attrs_map_unfold(s, 8);
        lemma_attrs_map_unfold(s, 7);
        lemma_attrs_map_unfold(s, 6);
        lemma_attrs_map_unfold(s, 5);
        lemma_attrs_map_unfold(s, 4);
        lemma_attrs_map_unfold(s, 3);
        lemma_attrs_map_unfold(s, 2);
        lemma_attrs_map_unfold(s, 1);
        lemma_attrs_map_unfold(s, 0);
        assert(s.skip(0) =~= s);
        assert(r@ =~= record_map(p@));
    }
    r
}

/// Peels one attribute off the front of the map interpretation.
proof fn lemma_attrs_map_unfold(s: Seq<Attr>, k: int)
    requires
        0 <= k < s.len(),
    ensures
        attrs_map(s.skip(k)) == attrs_map(s.skip(k + 1)).insert(s[k].key@, s[k].value@),
{
    assert(s.skip(k).skip(1) =~= s.skip(k + 1));
    assert(s.skip(k)[0] == s[k]);
}

/// The record a single item decodes to, used by the shared scan logic.
pub open spec fn parse_fn() -> spec_fn(Item) -> Option<RecordV> {
    |it: Item| parse_item_spec(it@)
}

/// Whether an item fails to decode.
pub open spec fn fails_fn() -> spec_fn(Item) -> bool {
    |it: Item| parse_item_spec(it@) is None
}

/// The records a page of items decodes to, in page order, corrupt
/// items skipped.
pub open spec fn decoded_seq(items: Seq<Item>) -> Seq<RecordV> {
    items.filter_map(parse_fn())
}

/// The shadows of a sequence of records.
pub open spec fn views_of(s: Seq<Private>) -> Seq<RecordV> {
    s.map_values(|p: Private| p@)
}

/// Decodes one page of scanned items into `acc`, in page order; a
/// corrupt item never aborts the page, it is skipped, and its index is
/// reported so the caller can log it.
#[verifier::loop_isolation(false)]
pub fn scan_absorb(acc: &mut Vec<Private>, items: &Vec<Item>) -> (skipped: Vec<usize>)
    ensures
        views_of(final(acc)@) == views_of(old(acc)@) + decoded_seq(items@),
        forall|k: int|
            0 <= k < skipped@.len() ==> skipped@[k] < items@.len() && parse_item_spec(
                items@[#[trigger] skipped@[k] as int]@,
            ) is None,
        forall|i: int|
            0 <= i < items@.len() && parse_item_spec(items@[i]@) is None ==> skipped@.contains(
                i as usize,
            ),
{
    let ghost orig = acc@;
    let mut skipped: Vec<usize> = Vec::new();
    let mut i: usize = 0;
    proof {
        assert(items@.take(0int) =~= Seq::<Item>::empty());
        assert(views_of(acc@) =~= views_of(orig) + decoded_seq(items@.take(0int)));
    }
    while i < items.len()
        invariant
            0 <= i <= items@.len(),
            views_of(acc@) == views_of(orig) + decoded_seq(items@.take(i as int)),
            forall|k: int|
                0 <= k < skipped@.len() ==> skipped@[k] < i && parse_item_spec(
                    items@[#[trigger] skipped@[k] as int]@,
                ) is None,
            forall|j: int|
                0 <= j < i && parse_item_spec(items@[j]@) is None ==> skipped@.contains(j as usize),
        decreases items@.len() - i,
    {
        let ghost prev_acc = acc@;
        let ghost prev_sk = skipped@;
        match item_to_private(&items[i]) {
            Ok(p) => {
                let ghost pv = p@;
                acc.push(p);
                proof {
                    assert(parse_fn()(items@[i as int]) == Some(pv));
                    assert(views_of(acc@) =~= views_of(prev_acc).push(pv));
                    assert(views_of(prev_acc).push(pv) =~= views_of(prev_acc) + seq![pv]);
                }
            },
            Err(_) => {
                skipped.push(i);
                proof {
                    assert(parse_fn()(items@[i as int]) is None);
                    assert(views_of(acc@) == views_of(prev_acc));
                }
            },
        }
        proof {
            items@.lemma_filter_map_take_succ(parse_fn(), i as int);
            assert(views_of(acc@) =~= views_of(orig) + decoded_seq(items@.take(i as int + 1)));
            assert forall|j: int|
                0 <= j < i + 1 && parse_item_spec(items@[j]@) is None implies skipped@.contains(
                j as usize,
            ) by {
                if j < i {
                    assert(prev_sk.contains(j as usize));
                    let k = choose|k: int| 0 <= k < prev_sk.len() && prev_sk[k] == j as usize;
                    assert(skipped@[k] == j as usize);
                } else {
                    assert(skipped@[skipped@.len() - 1] == j as usize);
                }
            }
        }
        i += 1;
    }
    proof {
        assert(items@.take(items@.len() as int) =~= items@);
    }
    skipped
}

/// The sequence of records a whole paginated scan yields: every page's
/// decodable items, in page order.
pub open spec fn decoded_pages(pages: Seq<Vec<Item>>) -> Seq<RecordV>
    decreases pages.len(),
{
    if pages.len() == 0 {
        Seq::empty()
    } else {
        decoded_seq(pages[0]@) + decoded_pages(pages.skip(1))
    }
}

proof fn lemma_decoded_pages_take_succ(s: Seq<Vec<Item>>, i: int)
    requires
        0 <= i < s.len(),
    ensures
        decoded_pages(s.take(i + 1)) == decoded_pages(s.take(i)) + decoded_seq(s[i]@),
    decreases i,
{
    if i == 0 {
        assert(s.take(1int).skip(1) =~= Seq::<Vec<Item>>::empty());
        assert(s.take(0int) =~= Seq::<Vec<Item>>::empty());
        assert(s.take(1int)[0] == s[0]);
        assert(s.take(1int).len() == 1);
        assert(decoded_pages(Seq::<Vec<Item>>::empty()) == Seq::<RecordV>::empty());
        assert(decoded_pages(s.take(1int)) == decoded_seq(s.take(1int)[0]@) + decoded_pages(
            s.take(1int).skip(1),
        ));
        assert(decoded_pages(s.take(1int)) == decoded_seq(s[0]@) + Seq::<RecordV>::empty());
        assert(decoded_seq(s[0]@) + Seq::<RecordV>::empty() =~= Seq::<RecordV>::empty()
            + decoded_seq(s[0]@));
    } else {
        lemma_decoded_pages_take_succ(s.skip(1), i - 1);
        assert(s.take(i + 1).skip(1) =~= s.skip(1).take(i));
        assert(s.take(i).skip(1) =~= s.skip(1).take(i - 1));
        assert(s.take(i + 1)[0] == s[0]);
        assert(s.take(i)[0] == s[0]);
        assert(s.skip(1)[i - 1] == s[i]);
        assert(decoded_pages(s.take(i + 1)) == decoded_seq(s[0]@) + (decoded_pages(s.skip(1).take(
            i - 1,
        )) + decoded_seq(s[i]@)));
        assert(decoded_seq(s[0]@) + (decoded_pages(s.skip(1).take(i - 1)) + decoded_seq(s[i]@))
            =~= (decoded_seq(s[0]@) + decoded_pages(s.skip(1).take(i - 1))) + decoded_seq(s[i]@));
    }
}

/// Decodes every page of a completed scan, in order: the result covers
/// all pages, not only the first.
#[verifier::loop_isolation(false)]
pub fn decode_pages(pages: &Vec<Vec<Item>>) -> (r: Vec<Private>)
    ensures
        views_of(r@) == decoded_pages(pages@),
{
    let mut acc: Vec<Private> = Vec::new();
    let mut i: usize = 0;
    proof {
        assert(pages@.take(0int) =~= Seq::<Vec<Item>>::empty());
        assert(views_of(acc@) =~= decoded_pages(pages@.take(0int)));
    }
    while i < pages.len()
        invariant
            0 <= i <= pages@.len(),
            views_of(acc@) == decoded_pages(pages@.take(i as int)),
        decreases pages@.len() - i,
    {
        let _skipped = scan_absorb(&mut acc, &pages[i]);
        proof {
            lemma_decoded_pages_take_succ(pages@, i as int);
        }
        i += 1;
    }
    proof {
        assert(pages@.take(pages@.len() as int) =~= pages@);
    }
    acc
}

/// Taking one more element extends a filter by that element when it
/// matches.
proof fn lemma_filter_take_succ<A>(s: Seq<A>, p: spec_fn(A) -> bool, i: int)
    requires
        0 <= i < s.len(),
    ensures
        s.take(i + 1).filter(p) == s.take(i).filter(p) + (if p(s[i]) {
            seq![s[i]]
        } else {
            Seq::<A>::empty()
        }),
{
    reveal(Seq::filter);
    assert(s.take(i + 1).drop_last() =~= s.take(i));
    assert(s.take(i + 1).last() == s[i]);
    assert(s.take(i + 1).filter(p) =~= s.take(i).filter(p) + (if p(s[i]) {
        seq![s[i]]
    } else {
        Seq::<A>::empty()
    }));
}

/// The overdue test a record is filtered by.
pub open spec fn overdue_fn(as_of: Date) -> spec_fn(RecordV) -> bool {
    |rv: RecordV| date_before(rv.retest, as_of)
}

/// The client-side overdue filter: exactly the records whose retest
/// date falls strictly before `date`, in their scan order.
#[verifier::loop_isolation(false)]
pub fn out_of_date(records: &Vec<Private>, date: &Date) -> (r: Vec<Private>)
    ensures
        views_of(r@) == views_of(records@).filter(overdue_fn(*date)),
{
    let mut r: Vec<Private> = Vec::new();
    let mut i: usize = 0;
    let ghost vs = views_of(records@);
    proof {
        assert(vs.take(0int) =~= Seq::<RecordV>::empty());
        reveal(Seq::filter);
        assert(views_of(r@) =~= vs.take(0int).filter(overdue_fn(*date)));
    }
    while i < records.len()
        invariant
            0 <= i <= records@.len(),
            vs == views_of(records@),
            views_of(r@) == vs.take(i as int).filter(overdue_fn(*date)),
        decreases records@.len() - i,
    {
        let app = &records[i];
        proof {
            lemma_filter_take_succ(vs, overdue_fn(*date), i as int);
            assert(vs[i as int] == records@[i as int]@);
        }
        if app.retest.before(date) {
            r.push(app.clone());
            proof {
                assert(views_of(r@) =~= vs.take(i as int + 1).filter(overdue_fn(*date)));
            }
        } else {
            proof {
                assert(views_of(r@) =~= vs.take(i as int + 1).filter(overdue_fn(*date)));
            }
        }
        i += 1;
    }
    proof {
        assert(vs.take(records@.len() as int) =~= vs);
    }
    r
}

/// The store-side equality test on the voltage attribute: the item's
/// `voltage` attribute is the canonical rendering of `v`.
pub open spec fn voltage_matches_spec(m: Map<Seq<char>, AttrV>, v: int) -> bool {
    attr_s(m, "voltage"@) == Some(int_chars(v))
}

/// The item filter the store applies for a voltage query.
pub open spec fn voltage_fn(v: int) -> spec_fn(Item) -> bool {
    |it: Item| voltage_matches_spec(it@, v)
}

/// Whether an item passes the store's voltage equality filter.
pub fn item_matches_voltage(item: &Item, v: i64) -> (r: bool)
    ensures
        r == voltage_matches_spec(item@, v as int),
{
    let vs = i64_to_string(v);
    match item_value("voltage", item) {
        Ok(Some(s)) => str_eq(s.as_str(), vs.as_str()),
        _ => false,
    }
}

/// The subset of a page the store's voltage filter keeps, in order:
/// the store-side refinement a voltage scan applies before the shared
/// decode logic runs.
#[verifier::loop_isolation(false)]
pub fn filter_items_by_voltage(items: &Vec<Item>, v: i64) -> (r: Vec<Item>)
    ensures
        r@.map_values(|it: Item| it@) == items@.map_values(|it: Item| it@).filter(
            |m: Map<Seq<char>, AttrV>| voltage_matches_spec(m, v as int),
        ),
{
    let ghost ms = items@.map_values(|it: Item| it@);
    let ghost p = (|m: Map<Seq<char>, AttrV>| voltage_matches_spec(m, v as int));
    let mut r: Vec<Item> = Vec::new();
    let mut i: usize = 0;
    proof {
        assert(ms.take(0int) =~= Seq::<Map<Seq<char>, AttrV>>::empty());
        reveal(Seq::filter);
        assert(r@.map_values(|it: Item| it@) =~= ms.take(0int).filter(p));
    }
    while i < items.len()
        invariant
            0 <= i <= items@.len(),
            ms == items@.map_values(|it: Item| it@),
            p == (|m: Map<Seq<char>, AttrV>| voltage_matches_spec(m, v as int)),
            r@.map_values(|it: Item| it@) == ms.take(i as int).filter(p),
        decreases items@.len() - i,
    {
        proof {
            lemma_filter_take_succ(ms, p, i as int);
            assert(ms[i as int] == items@[i as int]@);
        }
        if item_matches_voltage(&items[i], v) {
            r.push(items[i].clone());
        }
        proof {
            assert(r@.map_values(|it: Item| it@) =~= ms.take(i as int + 1).filter(p));
        }
        i += 1;
    }
    proof {
        assert(ms.take(items@.len() as int) =~= ms);
    }
    r
}

/// Serializing a well-formed record and reconstructing it from the
/// stored item gives back a record equal in every field, the derived
/// retest date included.
pub proof fn lemma_serialize_then_parse(r: RecordV)
    requires
        record_wf(r),
    ensures
        parse_item_spec(record_map(r)) == Some(r),
{
    lemma_record_map_lookup(r);
    crate::text::lemma_int_chars_roundtrip(r.voltage);
    crate::model::lemma_env_label_roundtrip(r.environment);
    crate::date::lemma_date_roundtrip(r.date);
    crate::date::lemma_date_roundtrip(r.retest);
    assert(parse_item_spec(record_map(r))->Some_0 =~= r);
}

/// A serialized record passes the store's voltage filter for `v`
/// exactly when its voltage equals `v`.
pub proof fn lemma_voltage_filter_exact(r: RecordV, v: int)
    requires
        record_wf(r),
        i64::MIN as int <= v <= i64::MAX as int,
    ensures
        voltage_matches_spec(record_map(r), v) <==> r.voltage == v,
{
    lemma_record_map_lookup(r);
    if voltage_matches_spec(record_map(r), v) {
        crate::text::lemma_int_chars_injective(r.voltage, v);
    }
}

/// A scan loses exactly the corrupt items: the records decoded from a
/// page and the items skipped in it add up to the page's length.
pub proof fn lemma_decoded_len(items: Seq<Item>)
    ensures
        decoded_seq(items).len() + items.filter(fails_fn()).len() == items.len(),
    decreases items.len(),
{
    reveal(Seq::filter);
    if items.len() > 0 {
        lemma_decoded_len(items.drop_last());
    }
}

} // verus!
