//! Metric keys: a name with its labels, and the texts that are rendered from them.

use vstd::prelude::*;

use crate::laws;

verus! {

/// One label of a metric key.
#[derive(Debug)]
pub struct Label {
    pub key: String,
    pub value: String,
}

/// A metric's name and its labels, in the order in which they were given.
#[derive(Debug)]
pub struct MetricKey {
    pub name: String,
    pub labels: Vec<Label>,
}

/// The mathematical value of a [`MetricKey`].
#[verifier::ext_equal]
pub struct KeyView {
    pub name: Seq<char>,
    pub labels: Seq<(Seq<char>, Seq<char>)>,
}

impl View for Label {
    type V = (Seq<char>, Seq<char>);

    open spec fn view(&self) -> (Seq<char>, Seq<char>) {
        (self.key@, self.value@)
    }
}

impl View for MetricKey {
    type V = KeyView;

    open spec fn view(&self) -> KeyView {
        KeyView { name: self.name@, labels: label_views(self.labels@) }
    }
}

impl Clone for Label {
    fn clone(&self) -> (copy: Self)
        ensures
            copy@ == self@,
    {
        Label { key: self.key.clone(), value: self.value.clone() }
    }
}

impl Clone for MetricKey {
    fn clone(&self) -> (copy: Self)
        ensures
            copy@ == self@,
    {
        let mut labels: Vec<Label> = Vec::new();
        for i in 0..self.labels.len()
            invariant
                label_views(labels@) =~= self@.labels.take(i as int),
        {
            let label = self.labels[i].clone();
            let ghost before = labels@;
            labels.push(label);
            assert(label_views(labels@) =~= label_views(before).push(label@));
            assert(self@.labels.take(i + 1) =~= self@.labels.take(i as int).push(label@));
        }
        MetricKey { name: self.name.clone(), labels }
    }
}

impl MetricKey {
    /// Whether the two keys have the same name and the same labels in the same order.
    pub fn same_as(&self, other: &MetricKey) -> (same: bool)
        ensures
            same == (self@ == other@),
    {
        if !(self.name == other.name) || self.labels.len() != other.labels.len() {
            assert(self@.name != other@.name || self@.labels.len() != other@.labels.len());
            return false;
        }
        for i in 0..self.labels.len()
            invariant
                self.labels.len() == other.labels.len(),
                forall|j: int| 0 <= j < i ==> #[trigger] self@.labels[j] == other@.labels[j],
        {
            if !(self.labels[i].key == other.labels[i].key && self.labels[i].value
                == other.labels[i].value) {
                assert(self@.labels[i as int] != other@.labels[i as int]);
                return false;
            }
        }
        assert(self@.labels =~= other@.labels);
        true
    }
}

/// The views of a list of labels.
pub open spec fn label_views(labels: Seq<Label>) -> Seq<(Seq<char>, Seq<char>)> {
    labels.map_values(|label: Label| label@)
}

/// The texts of `parts` in order, with `sep` between each two neighbours.
pub open spec fn joined(parts: Seq<Seq<char>>, sep: Seq<char>) -> Seq<char>
    decreases parts.len(),
{
    if parts.len() == 0 {
        Seq::empty()
    } else if parts.len() == 1 {
        parts[0]
    } else {
        joined(parts.drop_last(), sep) + (sep + parts.last())
    }
}

/// `key=value` for each label.
pub open spec fn label_pairs(labels: Seq<(Seq<char>, Seq<char>)>) -> Seq<Seq<char>> {
    labels.map_values(|label: (Seq<char>, Seq<char>)| label.0 + "="@ + label.1)
}

/// The rendered key: the name alone where there are no labels, else `name{k=v,..}`.
pub open spec fn rendered(key: KeyView) -> Seq<char> {
    if key.labels.len() == 0 {
        key.name
    } else {
        key.name + "{"@ + joined(label_pairs(key.labels), ","@) + "}"@
    }
}

/// What the `Debug` output of a string is: the string in double quotes, with the escapes that
/// std documents for `str::escape_debug`.
pub uninterp spec fn debug_text(s: Seq<char>) -> Seq<char>;

/// `"key": "value"` for each label, both in their `Debug` form.
pub open spec fn debug_pairs(labels: Seq<(Seq<char>, Seq<char>)>) -> Seq<Seq<char>> {
    labels.map_values(
        |label: (Seq<char>, Seq<char>)| debug_text(label.0) + ": "@ + debug_text(label.1),
    )
}

/// The labels as a `Debug`-formatted map: `{"k": "v", ..}`.
pub open spec fn debug_map(labels: Seq<(Seq<char>, Seq<char>)>) -> Seq<char> {
    "{"@ + joined(debug_pairs(labels), ", "@) + "}"@
}

/// Formats a string with std's `Debug` (`{:?}`). The escaping rules are not spelled out: the
/// result is `debug_text` of the string.
#[verifier::external_body]
fn debug_quoted(s: &str) -> (quoted: String)
    ensures
        quoted@ == debug_text(s@),
{
    format!("{:?}", s)
}

/// Joins `parts` with `sep` between each two neighbours.
fn join(parts: &Vec<String>, sep: &str) -> (text: String)
    ensures
        text@ == joined(parts@.map_values(|part: String| part@), sep@),
{
    let ghost views = parts@.map_values(|part: String| part@);
    let mut text = String::new();
    for i in 0..parts.len()
        invariant
            views == parts@.map_values(|part: String| part@),
            text@ == joined(views.take(i as int), sep@),
    {
        proof {
            assert(views.take(i + 1).drop_last() =~= views.take(i as int));
        }
        if i > 0 {
            text.append(sep);
        }
        text.append(parts[i].as_str());
        assert(text@ =~= joined(views.take(i + 1), sep@));
    }
    assert(views.take(parts.len() as int) =~= views);
    text
}

/// Renders a key for display and for matching: `name`, or `name{k=v,..}` where it has labels.
pub fn render_key(key: &MetricKey) -> (text: String)
    ensures
        text@ == rendered(key@),
{
    if key.labels.len() == 0 {
        return key.name.clone();
    }
    let mut pairs: Vec<String> = Vec::new();
    for i in 0..key.labels.len()
        invariant
            pairs.len() == i,
            forall|j: int|
                0 <= j < i ==> #[trigger] pairs@[j]@ == label_pairs(key@.labels)[j],
    {
        let mut pair = key.labels[i].key.clone();
        pair.append("=");
        pair.append(key.labels[i].value.as_str());
        pairs.push(pair);
    }
    assert(pairs@.map_values(|part: String| part@) =~= label_pairs(key@.labels));
    let list = join(&pairs, ",");
    let mut text = key.name.clone();
    text.append("{");
    text.append(list.as_str());
    text.append("}");
    text
}

/// Formats the labels as a `Debug` map, verbatim and in the key's order.
pub fn debug_labels(labels: &Vec<Label>) -> (text: String)
    ensures
        text@ == debug_map(label_views(labels@)),
{
    let mut pairs: Vec<String> = Vec::new();
    for i in 0..labels.len()
        invariant
            pairs.len() == i,
            forall|j: int|
                0 <= j < i ==> #[trigger] pairs@[j]@ == debug_pairs(label_views(labels@))[j],
    {
        let mut pair = debug_quoted(labels[i].key.as_str());
        pair.append(": ");
        let value = debug_quoted(labels[i].value.as_str());
        pair.append(value.as_str());
        pairs.push(pair);
    }
    assert(pairs@.map_values(|part: String| part@) =~= debug_pairs(label_views(labels@)));
    let list = join(&pairs, ", ");
    let mut text = String::new();
    text.append("{");
    text.append(list.as_str());
    text.append("}");
    assert(text@ =~= debug_map(label_views(labels@)));
    text
}

/// The labels of `labels` whose key is `key`, in order.
pub open spec fn labels_under(
    labels: Seq<(Seq<char>, Seq<char>)>,
    key: Seq<char>,
) -> Seq<(Seq<char>, Seq<char>)> {
    labels.filter(|label: (Seq<char>, Seq<char>)| label.0 == key)
}

/// Whether two keys name the same metric, which is what equality of `metrics::Key` says: the same
/// name and the same labels, in any order. Only where there are more than two labels and some of
/// them share a key does the order count, and only among those.
pub open spec fn same_key(a: KeyView, b: KeyView) -> bool {
    &&& a.name == b.name
    &&& a.labels.len() == b.labels.len()
    &&& if a.labels.len() == 2 {
        a.labels == b.labels || a.labels == seq![b.labels[1], b.labels[0]]
    } else {
        forall|key: Seq<char>| #[trigger] labels_under(a.labels, key) == labels_under(b.labels, key)
    }
}

/// Naming the same metric is an equivalence.
pub proof fn same_key_is_an_equivalence(a: KeyView, b: KeyView, c: KeyView)
    ensures
        same_key(a, a),
        same_key(a, b) ==> same_key(b, a),
        same_key(a, b) && same_key(b, c) ==> same_key(a, c),
{
    if same_key(a, b) {
        if a.labels.len() == 2 && a.labels != b.labels {
            assert(b.labels =~= seq![a.labels[1], a.labels[0]]);
        }
        if a.labels.len() != 2 {
            assert forall|key: Seq<char>| #[trigger]
                labels_under(b.labels, key) == labels_under(a.labels, key) by {
                assert(labels_under(a.labels, key) == labels_under(b.labels, key));
            }
        }
        if same_key(b, c) {
            if a.labels.len() == 2 && a.labels != b.labels && b.labels != c.labels {
                assert(a.labels =~= c.labels);
            }
            if a.labels.len() != 2 {
                assert forall|key: Seq<char>| #[trigger]
                    labels_under(a.labels, key) == labels_under(c.labels, key) by {
                    assert(labels_under(b.labels, key) == labels_under(c.labels, key));
                }
            }
        }
    }
}

/// A rendered key starts with the name, and is the name alone exactly where there are no labels.
pub proof fn labels_always_show(key: KeyView)
    ensures
        key.name.is_prefix_of(rendered(key)),
        rendered(key) == key.name <==> key.labels.len() == 0,
{
    reveal_strlit("{");
    reveal_strlit("}");
    assert(rendered(key).take(key.name.len() as int) =~= key.name);
}

/// The view of a key shows all of it: the name, and the key and value of each label, in order. So
/// two keys have the same view exactly where their names and all their labels agree.
pub proof fn views_show_the_whole_key(a: MetricKey, b: MetricKey)
    ensures
        a@.name == a.name@,
        a@.labels.len() == a.labels@.len(),
        forall|i: int|
            0 <= i < a.labels@.len() ==> (#[trigger] a@.labels[i]).0 == a.labels@[i].key@
                && a@.labels[i].1 == a.labels@[i].value@,
        a@ == b@ <==> {
            &&& a.name@ == b.name@
            &&& a.labels@.len() == b.labels@.len()
            &&& forall|i: int|
                0 <= i < a.labels@.len() ==> (#[trigger] a.labels@[i]).key@ == b.labels@[i].key@
                    && a.labels@[i].value@ == b.labels@[i].value@
        },
{
    if a@ == b@ {
        assert forall|i: int| 0 <= i < a.labels@.len() implies (#[trigger] a.labels@[i]).key@
            == b.labels@[i].key@ && a.labels@[i].value@ == b.labels@[i].value@ by {
            assert(a@.labels[i] == b@.labels[i]);
        }
    }
    if a.name@ == b.name@ && a.labels@.len() == b.labels@.len() && (forall|i: int|
        0 <= i < a.labels@.len() ==> (#[trigger] a.labels@[i]).key@ == b.labels@[i].key@
            && a.labels@[i].value@ == b.labels@[i].value@) {
        assert forall|i: int| 0 <= i < a@.labels.len() implies a@.labels[i] == b@.labels[i] by {
            assert(a.labels@[i].key@ == b.labels@[i].key@);
        }
        assert(a@.labels =~= b@.labels);
    }
}

/// A key without labels renders as its name, and one with a single label as
/// `name{key=value}`.
pub proof fn short_keys_render(key: MetricKey)
    ensures
        key.labels@.len() == 0 ==> rendered(key@) == key.name@,
        key.labels@.len() == 1 ==> rendered(key@) == key.name@ + seq!['{'] + key.labels@[0].key@
            + seq!['='] + key.labels@[0].value@ + seq!['}'],
{
    reveal_strlit("{");
    reveal_strlit("=");
    reveal_strlit("}");
    if key.labels@.len() == 1 {
        assert(key@.labels[0] == key.labels@[0]@);
        assert(rendered(key@) =~= key.name@ + seq!['{'] + key.labels@[0].key@ + seq!['=']
            + key.labels@[0].value@ + seq!['}']);
    }
}

/// Appending a label to a key that has some replaces the closing brace of the rendered text by
/// `,key=value}` and changes nothing else: no label is ever left out.
pub proof fn each_label_is_rendered(key: MetricKey, longer: MetricKey, label: Label)
    requires
        key.labels@.len() > 0,
        longer.name@ == key.name@,
        longer.labels@ == key.labels@.push(label),
    ensures
        rendered(key@).len() > 0,
        rendered(key@).last() == '}',
        rendered(longer@) == rendered(key@).drop_last() + seq![','] + label.key@ + seq!['=']
            + label.value@ + seq!['}'],
{
    reveal_strlit("{");
    reveal_strlit("=");
    reveal_strlit(",");
    reveal_strlit("}");
    let pairs = label_pairs(key@.labels);
    let longer_pairs = label_pairs(longer@.labels);
    assert(longer@.labels =~= key@.labels.push(label@));
    assert(longer_pairs.drop_last() =~= pairs);
    assert(longer_pairs.last() =~= label.key@ + seq!['='] + label.value@);
    assert(rendered(longer@) =~= rendered(key@).drop_last() + seq![','] + label.key@ + seq!['=']
        + label.value@ + seq!['}']);
}

/// Where the text of label `i` starts in a rendered key: after the name and the opening brace, and
/// after each earlier label with its equals sign and the comma behind it.
pub open spec fn label_start(key: MetricKey, i: int) -> int
    decreases i,
{
    if i <= 0 {
        key.name@.len() as int + 1
    } else {
        label_start(key, i - 1) + key.labels@[i - 1].key@.len() + 1
            + key.labels@[i - 1].value@.len() + 1
    }
}

/// Whether `key=value` of a label stands in `text` from `start` on, with `before` in front of it.
pub open spec fn label_stands(text: Seq<char>, label: Label, start: int, before: char) -> bool {
    let middle = start + label.key@.len();
    let end = middle + 1 + label.value@.len();
    &&& 0 < start
    &&& end < text.len()
    &&& text[start - 1] == before
    &&& text.subrange(start, middle) == label.key@
    &&& text[middle] == '='
    &&& text.subrange(middle + 1, end) == label.value@
}

/// A rendered key with labels is the name, an opening brace, `key=value` for every label in order
/// with a comma between each two, and a closing brace, and it is no longer than that.
pub proof fn every_label_stands_in_its_place(key: MetricKey)
    requires
        key.labels@.len() > 0,
    ensures
        rendered(key@).len() == label_start(key, key.labels@.len() as int),
        rendered(key@).take(key.name@.len() as int) == key.name@,
        rendered(key@).last() == '}',
        forall|i: int|
            0 <= i < key.labels@.len() ==> label_stands(
                rendered(key@),
                #[trigger] key.labels@[i],
                label_start(key, i),
                if i == 0 {
                    '{'
                } else {
                    ','
                },
            ),
{
    reveal_strlit("{");
    reveal_strlit("}");
    let n = key.labels@.len() as int;
    let pairs = label_pairs(key@.labels);
    let list = joined(pairs, ","@);
    lemma_list_places(key, n);
    assert(pairs.take(n) =~= pairs);
    assert(rendered(key@) =~= key.name@ + seq!['{'] + list + seq!['}']);
    assert(rendered(key@).take(key.name@.len() as int) =~= key.name@);
    assert forall|i: int| 0 <= i < n implies label_stands(
        rendered(key@),
        #[trigger] key.labels@[i],
        label_start(key, i),
        if i == 0 {
            '{'
        } else {
            ','
        },
    ) by {
        lemma_label_stands(
            key.name@ + seq!['{'],
            list,
            key.labels@[i],
            label_start(key, i) - key.name@.len() - 1,
        );
    }
}

/// A label that stands in a list still stands in it when the list is put between `front` and a
/// closing brace.
proof fn lemma_label_stands(front: Seq<char>, list: Seq<char>, label: Label, from: int)
    requires
        front.len() > 0,
        ({
            let to = from + label.key@.len() + 1 + label.value@.len();
            &&& 0 <= from <= to <= list.len()
            &&& list.subrange(from, to) == label.key@ + seq!['='] + label.value@
        }),
    ensures
        label_stands(
            front + list + seq!['}'],
            label,
            front.len() + from,
            if from == 0 {
                front.last()
            } else {
                list[from - 1]
            },
        ),
{
    let text = front + list + seq!['}'];
    let start = front.len() + from;
    let middle = start + label.key@.len();
    let end = middle + 1 + label.value@.len();
    let own = list.subrange(from, from + label.key@.len() + 1 + label.value@.len());
    assert(text.subrange(start, end) =~= own);
    assert(text.subrange(start, middle) =~= own.subrange(0, label.key@.len() as int));
    assert(own.subrange(0, label.key@.len() as int) =~= label.key@);
    assert(text[middle] == own[label.key@.len() as int]);
    assert(text.subrange(middle + 1, end) =~= own.subrange(
        label.key@.len() as int + 1,
        own.len() as int,
    ));
    assert(own.subrange(label.key@.len() as int + 1, own.len() as int) =~= label.value@);
}

/// The list of the first `n` labels, and where each of them stands in it.
proof fn lemma_list_places(key: MetricKey, n: int)
    requires
        0 < n <= key.labels@.len(),
    ensures
        ({
            let list = joined(label_pairs(key@.labels).take(n), ","@);
            let shift = key.name@.len() + 1;
            &&& list.len() == label_start(key, n) - shift - 1
            &&& forall|i: int|
                #![trigger key.labels@[i]]
                0 <= i < n ==> ({
                    let label = key.labels@[i];
                    let from = label_start(key, i) - shift;
                    let to = from + label.key@.len() + 1 + label.value@.len();
                    &&& 0 <= from <= to <= list.len()
                    &&& list.subrange(from, to) == label.key@ + seq!['='] + label.value@
                    &&& i > 0 ==> 0 < from && list[from - 1] == ','
                })
        }),
    decreases n,
{
    reveal_strlit("=");
    reveal_strlit(",");
    let pairs = label_pairs(key@.labels);
    let shift = key.name@.len() + 1;
    let list = joined(pairs.take(n), ","@);
    let last = key.labels@[n - 1];
    assert(pairs[n - 1] =~= last.key@ + seq!['='] + last.value@);
    if n == 1 {
        assert(label_start(key, 0) == shift);
        assert(list == pairs[0]);
        assert(list.subrange(0, list.len() as int) =~= list);
    } else {
        lemma_list_places(key, n - 1);
        let front = joined(pairs.take(n - 1), ","@);
        assert(pairs.take(n).drop_last() =~= pairs.take(n - 1));
        assert(list == front + (","@ + pairs[n - 1]));
        assert forall|i: int|
            #![trigger key.labels@[i]]
            0 <= i < n implies ({
            let label = key.labels@[i];
            let from = label_start(key, i) - shift;
            let to = from + label.key@.len() + 1 + label.value@.len();
            &&& 0 <= from <= to <= list.len()
            &&& list.subrange(from, to) == label.key@ + seq!['='] + label.value@
            &&& i > 0 ==> 0 < from && list[from - 1] == ','
        }) by {
            let label = key.labels@[i];
            let from = label_start(key, i) - shift;
            let to = from + label.key@.len() + 1 + label.value@.len();
            if i < n - 1 {
                assert(list.subrange(from, to) =~= front.subrange(from, to));
                if i > 0 {
                    assert(list[from - 1] == front[from - 1]);
                }
            } else {
                assert(from == front.len() + 1);
                assert(list.subrange(from, to) =~= label.key@ + seq!['='] + label.value@);
            }
        }
    }
}

/// The `Debug` map of no labels is `{}`, and that of one label is `{"key": "value"}`.
pub proof fn short_label_maps(labels: Seq<Label>)
    ensures
        labels.len() == 0 ==> debug_map(label_views(labels)) == seq!['{', '}'],
        labels.len() == 1 ==> debug_map(label_views(labels)) == seq!['{'] + debug_text(
            labels[0].key@,
        ) + seq![':', ' '] + debug_text(labels[0].value@) + seq!['}'],
{
    reveal_strlit("{");
    reveal_strlit(": ");
    reveal_strlit("}");
    if labels.len() == 0 {
        assert(debug_map(label_views(labels)) =~= seq!['{', '}']);
    }
    if labels.len() == 1 {
        assert(label_views(labels)[0] == labels[0]@);
        assert(debug_map(label_views(labels)) =~= seq!['{'] + debug_text(labels[0].key@)
            + seq![':', ' '] + debug_text(labels[0].value@) + seq!['}']);
    }
}

/// Appending a label to a list that has some replaces the closing brace of its `Debug` map by
/// `, "key": "value"}` and changes nothing else: no label is ever left out.
pub proof fn each_label_is_in_the_map(labels: Seq<Label>, label: Label)
    requires
        labels.len() > 0,
    ensures
        debug_map(label_views(labels)).len() > 0,
        debug_map(label_views(labels)).last() == '}',
        debug_map(label_views(labels.push(label))) == debug_map(label_views(labels)).drop_last()
            + seq![',', ' '] + debug_text(label.key@) + seq![':', ' '] + debug_text(label.value@)
            + seq!['}'],
{
    reveal_strlit("{");
    reveal_strlit(": ");
    reveal_strlit(", ");
    reveal_strlit("}");
    let pairs = debug_pairs(label_views(labels));
    let longer = debug_pairs(label_views(labels.push(label)));
    assert(label_views(labels.push(label)) =~= label_views(labels).push(label@));
    assert(longer.drop_last() =~= pairs);
    assert(longer.last() =~= debug_text(label.key@) + seq![':', ' '] + debug_text(label.value@));
    assert(debug_map(label_views(labels.push(label))) =~= debug_map(
        label_views(labels),
    ).drop_last() + seq![',', ' '] + debug_text(label.key@) + seq![':', ' '] + debug_text(
        label.value@,
    ) + seq!['}']);
}

/// Keys that name the same metric have the same name and the same labels, each as often. Where no
/// two labels share a key, that is enough: the order of the labels makes no difference. Two labels
/// can always change places.
pub proof fn same_key_ignores_the_order_of_labels(a: KeyView, b: KeyView)
    ensures
        same_key(a, b) ==> a.name == b.name && a.labels.to_multiset() == b.labels.to_multiset(),
        a.name == b.name && a.labels.to_multiset() == b.labels.to_multiset() && (forall|
            i: int,
            j: int,
        |
            0 <= i < j < a.labels.len() ==> (#[trigger] a.labels[i]).0 != (
            #[trigger] a.labels[j]).0) ==> same_key(a, b),
        a.name == b.name && a.labels.len() == 2 && b.labels == seq![a.labels[1], a.labels[0]]
            ==> same_key(a, b),
{
    broadcast use vstd::multiset::group_multiset_axioms;

    a.labels.to_multiset_ensures();
    b.labels.to_multiset_ensures();
    if same_key(a, b) {
        lemma_same_key_same_labels(a, b);
    }
    if a.name == b.name && a.labels.to_multiset() == b.labels.to_multiset() && (forall|
        i: int,
        j: int,
    |
        0 <= i < j < a.labels.len() ==> (#[trigger] a.labels[i]).0 != (#[trigger] a.labels[j]).0) {
        lemma_distinct_labels_in_any_order(a, b);
    }
    if a.name == b.name && a.labels.len() == 2 && b.labels == seq![a.labels[1], a.labels[0]] {
        assert(a.labels =~= seq![b.labels[1], b.labels[0]]);
    }
}

/// Among more than two labels, those that share a key are in the same order in all keys that name
/// the same metric.
pub proof fn labels_of_one_key_keep_their_order(a: KeyView, b: KeyView, key: Seq<char>)
    requires
        same_key(a, b),
        a.labels.len() > 2,
    ensures
        a.labels.filter(|label: (Seq<char>, Seq<char>)| label.0 == key) == b.labels.filter(
            |label: (Seq<char>, Seq<char>)| label.0 == key,
        ),
{
    let own = |label: (Seq<char>, Seq<char>)| label.0 == key;
    lemma_labels_under(a.labels, key, own);
    lemma_labels_under(b.labels, key, own);
    assert(labels_under(a.labels, key) == labels_under(b.labels, key));
}

/// The labels under a key are those that pass the test for it.
proof fn lemma_labels_under(
    labels: Seq<(Seq<char>, Seq<char>)>,
    key: Seq<char>,
    own: spec_fn((Seq<char>, Seq<char>)) -> bool,
)
    requires
        forall|label: (Seq<char>, Seq<char>)| #[trigger] own(label) == (label.0 == key),
    ensures
        labels_under(labels, key) == labels.filter(own),
    decreases labels.len(),
{
    reveal(Seq::filter);
    if labels.len() > 0 {
        lemma_labels_under(labels.drop_last(), key, own);
        assert(own(labels.last()) == (labels.last().0 == key));
    }
}

/// Keys that name the same metric have the same labels, each as often.
proof fn lemma_same_key_same_labels(a: KeyView, b: KeyView)
    requires
        same_key(a, b),
    ensures
        a.labels.to_multiset() == b.labels.to_multiset(),
{
    broadcast use vstd::multiset::group_multiset_axioms;

    if a.labels.len() == 2 {
        if a.labels != b.labels {
            let x = seq![b.labels[1]];
            let y = seq![b.labels[0]];
            assert(a.labels =~= x + y);
            assert(b.labels =~= y + x);
            vstd::seq_lib::lemma_seq_union_to_multiset_commutative(x, y);
        }
    } else {
        assert forall|label: (Seq<char>, Seq<char>)| #[trigger]
            a.labels.to_multiset().count(label) == b.labels.to_multiset().count(label) by {
            let own = |other: (Seq<char>, Seq<char>)| other.0 == label.0;
            assert(labels_under(a.labels, label.0) == labels_under(b.labels, label.0));
            lemma_labels_under(a.labels, label.0, own);
            lemma_labels_under(b.labels, label.0, own);
            laws::lemma_filter_multiset(a.labels, own);
            laws::lemma_filter_multiset(b.labels, own);
            assert(a.labels.filter(own).to_multiset().count(label)
                == b.labels.filter(own).to_multiset().count(label));
        }
        assert(a.labels.to_multiset() =~= b.labels.to_multiset());
    }
}

/// Labels of which no two share a key can be in any order.
proof fn lemma_distinct_labels_in_any_order(a: KeyView, b: KeyView)
    requires
        a.name == b.name,
        a.labels.to_multiset() == b.labels.to_multiset(),
        forall|i: int, j: int|
            0 <= i < j < a.labels.len() ==> (#[trigger] a.labels[i]).0 != (
            #[trigger] a.labels[j]).0,
    ensures
        same_key(a, b),
{
    broadcast use vstd::multiset::group_multiset_axioms;

    a.labels.to_multiset_ensures();
    b.labels.to_multiset_ensures();
    assert(a.labels.len() == b.labels.len());
    if a.labels.len() == 2 {
        assert(b.labels.contains(a.labels[0])) by {
            assert(a.labels.contains(a.labels[0]));
            assert(a.labels.to_multiset().count(a.labels[0]) > 0);
        }
        assert(b.labels.contains(a.labels[1])) by {
            assert(a.labels.contains(a.labels[1]));
            assert(a.labels.to_multiset().count(a.labels[1]) > 0);
        }
        assert(a.labels[0].0 != a.labels[1].0);
        if b.labels[0] == a.labels[0] {
            assert(a.labels =~= b.labels);
        } else {
            assert(a.labels =~= seq![b.labels[1], b.labels[0]]);
        }
    } else {
        assert forall|key: Seq<char>| #[trigger] labels_under(a.labels, key) == labels_under(
            b.labels,
            key,
        ) by {
            let own = |label: (Seq<char>, Seq<char>)| label.0 == key;
            let mine = a.labels.filter(own);
            let theirs = b.labels.filter(own);
            lemma_labels_under(a.labels, key, own);
            lemma_labels_under(b.labels, key, own);
            laws::lemma_filter_keeps_multiset(a.labels, b.labels, own);
            lemma_one_label_per_key(a.labels, key);
            mine.to_multiset_ensures();
            theirs.to_multiset_ensures();
            assert(mine.len() == theirs.len());
            if mine.len() == 1 {
                assert(mine.contains(mine[0]));
                assert(mine.to_multiset().count(mine[0]) > 0);
                assert(theirs.contains(mine[0]));
            }
            assert(mine =~= theirs);
        }
    }
}

/// A list in which no two labels share a key has at most one label under each key.
proof fn lemma_one_label_per_key(labels: Seq<(Seq<char>, Seq<char>)>, key: Seq<char>)
    requires
        forall|i: int, j: int|
            0 <= i < j < labels.len() ==> (#[trigger] labels[i]).0 != (#[trigger] labels[j]).0,
    ensures
        labels_under(labels, key).len() <= 1,
    decreases labels.len(),
{
    reveal(Seq::filter);
    if labels.len() > 0 {
        let rest = labels.drop_last();
        let own = |label: (Seq<char>, Seq<char>)| label.0 == key;
        lemma_one_label_per_key(rest, key);
        let kept = rest.filter(own);
        lemma_labels_under(rest, key, own);
        lemma_labels_under(labels, key, own);
        if kept.len() > 0 && labels.last().0 == key {
            rest.lemma_filter_pred(own, 0);
            rest.lemma_filter_contains_rev(own, kept[0]);
            let i = choose|i: int| 0 <= i < rest.len() && rest[i] == kept[0];
            assert(labels[i].0 != labels[labels.len() - 1].0);
        }
    }
}

} // verus!
