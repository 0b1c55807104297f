//! The identifier of a metric: a name and labels.

use vstd::multiset::Multiset;
use vstd::prelude::*;

verus! {

broadcast use vstd::string::group_string_axioms;

/// A label: its key and its value.
pub type LabelView = (Seq<char>, Seq<char>);

/// What a [`MetricKey`] holds.
#[verifier::ext_equal]
pub struct KeyView {
    pub name: Seq<char>,
    pub labels: Seq<LabelView>,
}

/// What two keys of one metric have in common.
///
/// The order of labels does not tell keys apart, with one exception: among three labels or more,
/// those that share a label key keep their order.
#[verifier::ext_equal]
pub struct KeyId {
    pub name: Seq<char>,
    pub labels: Multiset<LabelView>,
    pub runs: spec_fn(Seq<char>) -> Seq<LabelView>,
}

impl KeyView {
    /// The labels under the label key `label_key`, in their order.
    pub open spec fn run(self, label_key: Seq<char>) -> Seq<LabelView> {
        self.labels.filter(|label: LabelView| label.0 == label_key)
    }

    /// The metric that this key identifies.
    pub open spec fn id(self) -> KeyId {
        KeyId {
            name: self.name,
            labels: self.labels.to_multiset(),
            runs: |label_key: Seq<char>|
                if self.labels.len() >= 3 {
                    self.run(label_key)
                } else {
                    Seq::empty()
                },
        }
    }
}

/// The identifier of a metric: its name, and its labels as pairs of a label key and a value.
#[derive(Debug)]
pub struct MetricKey {
    pub name: String,
    pub labels: Vec<(String, String)>,
}

/// The labels that a vector of pairs holds.
pub open spec fn label_views(labels: Seq<(String, String)>) -> Seq<LabelView> {
    labels.map_values(|label: (String, String)| (label.0@, label.1@))
}

impl View for MetricKey {
    type V = KeyView;

    open spec fn view(&self) -> KeyView {
        KeyView { name: self.name@, labels: label_views(self.labels@) }
    }
}

impl Clone for MetricKey {
    fn clone(&self) -> (copy: Self)
        ensures
            copy@ == self@,
    {
        MetricKey { name: self.name.clone(), labels: duplicate_labels(&self.labels) }
    }
}

impl MetricKey {
    /// The key with this name and no labels.
    pub fn from_name(name: &str) -> (key: MetricKey)
        ensures
            key@ == (KeyView { name: name@, labels: Seq::empty() }),
    {
        let key = MetricKey { name: name.to_string(), labels: Vec::new() };
        assert(key@.labels =~= Seq::empty());
        key
    }

    /// The key with this name and these labels.
    pub fn from_parts(name: &str, labels: Vec<(String, String)>) -> (key: MetricKey)
        ensures
            key@ == (KeyView { name: name@, labels: label_views(labels@) }),
    {
        MetricKey { name: name.to_string(), labels }
    }

    /// Appends the name and the labels to `out`, as in `requests[op=get,ok=true]`.
    pub fn push_text(&self, out: &mut String)
        ensures
            final(out)@ == old(out)@ + key_text(self@),
    {
        out.append(self.name.as_str());
        if self.labels.len() != 0 {
            out.append("[");
            let ghost start = out@;
            let mut i: usize = 0;
            while i < self.labels.len()
                invariant
                    i <= self.labels.len(),
                    out@ == start + joined(self@.labels.take(i as int)),
                decreases self.labels.len() - i,
            {
                if i != 0 {
                    out.append(",");
                }
                out.append(self.labels[i].0.as_str());
                out.append("=");
                out.append(self.labels[i].1.as_str());
                assert(self@.labels.take(i + 1).drop_last() =~= self@.labels.take(i as int));
                assert(out@ =~= start + joined(self@.labels.take(i + 1)));
                i = i + 1;
            }
            assert(self@.labels.take(i as int) =~= self@.labels);
            out.append("]");
        }
        assert(out@ =~= old(out)@ + key_text(self@));
    }
}

/// A second vector that holds the same labels.
pub fn duplicate_labels(labels: &Vec<(String, String)>) -> (copy: Vec<(String, String)>)
    ensures
        label_views(copy@) == label_views(labels@),
{
    let mut copy: Vec<(String, String)> = Vec::new();
    let mut i: usize = 0;
    while i < labels.len()
        invariant
            i <= labels.len(),
            label_views(copy@) == label_views(labels@).take(i as int),
        decreases labels.len() - i,
    {
        let ghost before = label_views(copy@);
        copy.push((labels[i].0.clone(), labels[i].1.clone()));
        assert(label_views(copy@) =~= before.push(label_views(labels@)[i as int]));
        assert(label_views(copy@) =~= label_views(labels@).take(i + 1));
        i = i + 1;
    }
    assert(label_views(labels@).take(i as int) =~= label_views(labels@));
    copy
}

/// The labels as text, each as `key=value`, separated by commas.
pub open spec fn joined(labels: Seq<LabelView>) -> Seq<char>
    decreases labels.len(),
{
    if labels.len() == 0 {
        Seq::empty()
    } else {
        let pair = labels.last().0 + "="@ + labels.last().1;
        if labels.len() == 1 {
            pair
        } else {
            joined(labels.drop_last()) + ","@ + pair
        }
    }
}

/// The key as text: its name, then its labels in square brackets where it has any.
pub open spec fn key_text(key: KeyView) -> Seq<char> {
    if key.labels.len() == 0 {
        key.name
    } else {
        key.name + "["@ + joined(key.labels) + "]"@
    }
}

} // verus!
