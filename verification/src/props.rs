//! The properties of a graph object.
use vstd::prelude::*;

use crate::text::{decimal, same_text, signed_decimal};

verus! {

/// A number in a property.
#[derive(Debug)]
pub enum PropNumber {
    Unsigned(u64),
    Signed(i64),
    /// A number with a fraction or an exponent, as it is written.
    Fractional(String),
}

/// The value of a property before it is turned into text. What an array or an
/// object holds does not matter.
#[derive(Debug)]
pub enum PropValue {
    Null,
    Bool(bool),
    Number(PropNumber),
    Text(String),
    Array,
    Object,
}

/// A [`PropValue`] with its texts as sequences of characters.
pub enum PropValueView {
    Null,
    Bool(bool),
    Unsigned(u64),
    Signed(i64),
    Fractional(Seq<char>),
    Text(Seq<char>),
    Array,
    Object,
}

impl View for PropValue {
    type V = PropValueView;

    open spec fn view(&self) -> PropValueView {
        match self {
            PropValue::Null => PropValueView::Null,
            PropValue::Bool(value) => PropValueView::Bool(*value),
            PropValue::Number(PropNumber::Unsigned(n)) => PropValueView::Unsigned(*n),
            PropValue::Number(PropNumber::Signed(n)) => PropValueView::Signed(*n),
            PropValue::Number(PropNumber::Fractional(text)) => PropValueView::Fractional(text@),
            PropValue::Text(text) => PropValueView::Text(text@),
            PropValue::Array => PropValueView::Array,
            PropValue::Object => PropValueView::Object,
        }
    }
}

impl DeepView for PropValue {
    type V = PropValueView;

    open spec fn deep_view(&self) -> PropValueView {
        self@
    }
}

/// The text of a scalar value. `null`, arrays and objects have none.
pub open spec fn scalar_text(value: PropValueView) -> Option<Seq<char>> {
    match value {
        PropValueView::Null => None,
        PropValueView::Bool(true) => Some("true"@),
        PropValueView::Bool(false) => Some("false"@),
        PropValueView::Unsigned(n) => Some(decimal(n as nat)),
        PropValueView::Signed(n) => Some(signed_decimal(n as int)),
        PropValueView::Fractional(text) => Some(text),
        PropValueView::Text(text) => Some(text),
        PropValueView::Array => None,
        PropValueView::Object => None,
    }
}

/// `Number::to_string` of miniserde on an unsigned number: its decimal digits.
#[verifier::external_body]
fn unsigned_text(n: u64) -> (text: String)
    ensures
        text@ == decimal(n as nat),
{
    miniserde::json::Number::U64(n).to_string()
}

/// `Number::to_string` of miniserde on a signed number: its decimal digits,
/// after a minus sign when it is negative.
#[verifier::external_body]
fn signed_text(n: i64) -> (text: String)
    ensures
        text@ == signed_decimal(n as int),
{
    miniserde::json::Number::I64(n).to_string()
}

impl PropValue {
    /// The text of a scalar value.
    pub fn into_text(self) -> (text: Option<String>)
        ensures
            text.deep_view() == scalar_text(self@),
    {
        match self {
            PropValue::Null => None,
            PropValue::Bool(value) => if value {
                Some("true".to_string())
            } else {
                Some("false".to_string())
            },
            PropValue::Number(number) => match number {
                PropNumber::Unsigned(n) => Some(unsigned_text(n)),
                PropNumber::Signed(n) => Some(signed_text(n)),
                PropNumber::Fractional(text) => Some(text),
            },
            PropValue::Text(text) => Some(text),
            PropValue::Array => None,
            PropValue::Object => None,
        }
    }
}

/// What a row of entries says of each key: the last entry of a key counts.
pub open spec fn latest(entries: Seq<(Seq<char>, Seq<char>)>) -> Map<Seq<char>, Seq<char>>
    decreases entries.len(),
{
    if entries.len() == 0 {
        Map::empty()
    } else {
        latest(entries.drop_last()).insert(entries.last().0, entries.last().1)
    }
}

/// Text under text keys.
#[derive(Debug)]
pub struct PropMap {
    entries: Vec<(String, String)>,
}

impl View for PropMap {
    type V = Map<Seq<char>, Seq<char>>;

    closed spec fn view(&self) -> Map<Seq<char>, Seq<char>> {
        latest(self.entries.deep_view())
    }
}

impl Clone for PropMap {
    fn clone(&self) -> (copy: PropMap)
        ensures
            copy@ == self@,
    {
        let mut entries: Vec<(String, String)> = Vec::new();
        let mut i: usize = 0;
        while i < self.entries.len()
            invariant
                i <= self.entries.len(),
                entries.deep_view() == self.entries.deep_view().take(i as int),
            decreases self.entries.len() - i,
        {
            let ghost before = entries.deep_view();
            entries.push((self.entries[i].0.clone(), self.entries[i].1.clone()));
            i += 1;
            assert(entries.deep_view() =~= before.push(self.entries.deep_view()[i - 1]));
            assert(self.entries.deep_view().take(i as int) =~= before.push(
                self.entries.deep_view()[i - 1],
            ));
        }
        assert(self.entries.deep_view().take(i as int) =~= self.entries.deep_view());
        PropMap { entries }
    }
}

impl PropMap {
    pub fn new() -> (map: PropMap)
        ensures
            map@ == Map::<Seq<char>, Seq<char>>::empty(),
    {
        let map = PropMap { entries: Vec::new() };
        assert(map.entries.deep_view() =~= seq![]);
        map
    }

    /// Puts `value` under `key`, in place of what stood there.
    pub fn insert(&mut self, key: String, value: String)
        ensures
            final(self)@ == old(self)@.insert(key@, value@),
    {
        let ghost before = self.entries.deep_view();
        self.entries.push((key, value));
        proof {
            assert(self.entries.deep_view().drop_last() =~= before);
            assert(self.entries.deep_view().last() == (key@, value@));
        }
    }

    /// What stands under `key`.
    pub fn get(&self, key: &str) -> (value: Option<&str>)
        ensures
            match value {
                Some(text) => self@.contains_key(key@) && self@[key@] == text@,
                None => !self@.contains_key(key@),
            },
    {
        let ghost all = self.entries.deep_view();
        let mut left: usize = self.entries.len();
        assert(all.take(left as int) =~= all);
        while left > 0
            invariant
                left <= self.entries.len(),
                all == self.entries.deep_view(),
                self@ == latest(all),
                latest(all).contains_key(key@) == latest(all.take(left as int)).contains_key(key@),
                latest(all).contains_key(key@) ==> latest(all)[key@] == latest(
                    all.take(left as int),
                )[key@],
            decreases left,
        {
            let entry = &self.entries[left - 1];
            proof {
                assert(all.take(left as int).drop_last() =~= all.take(left - 1));
                assert(all.take(left as int).last() == (entry.0@, entry.1@));
            }
            if same_text(entry.0.as_str(), key) {
                return Some(entry.1.as_str());
            }
            left -= 1;
        }
        None
    }
}

/// The scalar properties of `raw` as text; where a key comes twice, the last
/// scalar counts.
pub open spec fn normalized(raw: Seq<(Seq<char>, PropValueView)>) -> Map<Seq<char>, Seq<char>>
    decreases raw.len(),
{
    if raw.len() == 0 {
        Map::empty()
    } else {
        let kept = normalized(raw.drop_last());
        match scalar_text(raw.last().1) {
            Some(text) => kept.insert(raw.last().0, text),
            None => kept,
        }
    }
}

/// Turns properties into text and drops those that are not scalar.
pub fn normalize_props(raw: Vec<(String, PropValue)>) -> (props: PropMap)
    ensures
        props@ == normalized(raw.deep_view()),
{
    let ghost all = raw.deep_view();
    let mut props = PropMap::new();
    assert(all.take(0) =~= seq![]);
    for entry in iter: raw
        invariant
            iter.seq() == raw@,
            all == raw.deep_view(),
            props@ == normalized(all.take(iter.index())),
    {
        let (key, value) = entry;
        proof {
            assert(all.take(iter.index() + 1).drop_last() =~= all.take(iter.index()));
            assert(all.take(iter.index() + 1).last() == (key@, value@));
        }
        if let Some(text) = value.into_text() {
            props.insert(key, text);
        }
    }
    assert(all.take(all.len() as int) =~= all);
    props
}

/// Where no key comes twice, a key is kept exactly when its value is scalar,
/// and it is kept with the text of that value.
pub proof fn law_normalizing_keeps_scalars(raw: Seq<(Seq<char>, PropValueView)>, i: int)
    requires
        0 <= i < raw.len(),
        forall|a: int, b: int| 0 <= a < b < raw.len() ==> #[trigger] raw[a].0 != #[trigger] raw[b].0,
    ensures
        normalized(raw).contains_key(raw[i].0) == (scalar_text(raw[i].1) is Some),
        scalar_text(raw[i].1) matches Some(text) ==> normalized(raw)[raw[i].0] == text,
    decreases raw.len(),
{
    let shorter = raw.drop_last();
    assert forall|a: int, b: int| 0 <= a < b < shorter.len() implies #[trigger] shorter[a].0
        != #[trigger] shorter[b].0 by {
        assert(raw[a].0 != raw[b].0);
    }
    if i < raw.len() - 1 {
        assert(raw[i].0 != raw[raw.len() - 1].0);
        law_normalizing_keeps_scalars(shorter, i);
    } else {
        lemma_normalized_keys(shorter, raw[i].0);
    }
}

/// Normalizing brings up no key that the properties do not have.
pub proof fn lemma_normalized_keys(raw: Seq<(Seq<char>, PropValueView)>, key: Seq<char>)
    requires
        forall|a: int| 0 <= a < raw.len() ==> #[trigger] raw[a].0 != key,
    ensures
        !normalized(raw).contains_key(key),
    decreases raw.len(),
{
    if raw.len() > 0 {
        assert(raw[raw.len() - 1].0 != key);
        assert forall|a: int| 0 <= a < raw.drop_last().len() implies #[trigger] raw.drop_last()[a].0
            != key by {
            assert(raw[a].0 != key);
        }
        lemma_normalized_keys(raw.drop_last(), key);
    }
}

/// Each scalar has its text: a truth value its word, a number its digits as they
/// are written, and a text itself. Nothing else has one.
pub proof fn law_scalar_texts(yes: bool, n: u64, m: i64, text: Seq<char>)
    ensures
        scalar_text(PropValueView::Bool(yes)) == Some(
            if yes {
                "true"@
            } else {
                "false"@
            },
        ),
        scalar_text(PropValueView::Unsigned(n)) == Some(decimal(n as nat)),
        m >= 0 ==> scalar_text(PropValueView::Signed(m)) == Some(decimal(m as nat)),
        m < 0 ==> scalar_text(PropValueView::Signed(m)) == Some(seq!['-'] + decimal(-m as nat)),
        scalar_text(PropValueView::Fractional(text)) == Some(text),
        scalar_text(PropValueView::Text(text)) == Some(text),
        scalar_text(PropValueView::Null) is None,
        scalar_text(PropValueView::Array) is None,
        scalar_text(PropValueView::Object) is None,
{
}

/// Whether a value is a scalar.
pub open spec fn is_scalar(value: PropValueView) -> bool {
    !(value is Null) && !(value is Array) && !(value is Object)
}

/// A key stands for the last scalar under it, whatever else stands under it.
pub proof fn law_last_scalar_counts(raw: Seq<(Seq<char>, PropValueView)>, i: int)
    requires
        0 <= i < raw.len(),
        is_scalar(raw[i].1),
        forall|j: int| i < j < raw.len() && is_scalar((#[trigger] raw[j]).1) ==> raw[j].0 != raw[i].0,
    ensures
        normalized(raw).contains_key(raw[i].0),
        Some(normalized(raw)[raw[i].0]) == scalar_text(raw[i].1),
    decreases raw.len(),
{
    if i < raw.len() - 1 {
        let front = raw.drop_last();
        assert(front[i] == raw[i]);
        assert(raw[raw.len() - 1] == raw.last());
        assert forall|j: int| i < j < front.len() && is_scalar(
            (#[trigger] front[j]).1,
        ) implies front[j].0 != front[i].0 by {
            assert(front[j] == raw[j]);
        }
        law_last_scalar_counts(front, i);
    }
}

/// A key that no scalar stands under is dropped.
pub proof fn law_keys_without_scalar_are_dropped(
    raw: Seq<(Seq<char>, PropValueView)>,
    key: Seq<char>,
)
    requires
        forall|j: int| 0 <= j < raw.len() && is_scalar((#[trigger] raw[j]).1) ==> raw[j].0 != key,
    ensures
        !normalized(raw).contains_key(key),
    decreases raw.len(),
{
    if raw.len() > 0 {
        let front = raw.drop_last();
        assert(raw[raw.len() - 1] == raw.last());
        assert forall|j: int| 0 <= j < front.len() && is_scalar(
            (#[trigger] front[j]).1,
        ) implies front[j].0 != key by {
            assert(front[j] == raw[j]);
        }
        law_keys_without_scalar_are_dropped(front, key);
    }
}

} // verus!
