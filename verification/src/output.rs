//! The lines that the process monitor prints.

use std::ops::Add;

use vstd::prelude::*;
use vstd::std_specs::ops::AddSpec;

use crate::config::{Field, FieldView};
use crate::cumulate::{sum_defined, sum_from};
use crate::text::{join, joined, joined_parts_are_the_pieces, pieces, texts};

verus! {

/// What one field prints: `sum` is the text of the sum of all loads, `loads` are the texts of the
/// loads, and `above` says whether the sum is above the field's threshold.
pub open spec fn field_text<V>(
    field: FieldView<V>,
    sum: Seq<char>,
    loads: Seq<Seq<char>>,
    above: bool,
) -> Seq<char> {
    match field {
        FieldView::Sum => sum,
        FieldView::AllLoads => joined(loads, " "@),
        FieldView::IfGreater { value, then, otherwise } => if above {
            then
        } else {
            match otherwise {
                Some(text) => text,
                None => Seq::empty(),
            }
        },
    }
}

/// What each of `fields` prints.
pub open spec fn field_texts<V>(
    fields: Seq<Field<V>>,
    sum: Seq<char>,
    loads: Seq<Seq<char>>,
    above: Seq<bool>,
) -> Seq<Seq<char>> {
    Seq::new(fields.len(), |i: int| field_text(fields[i]@, sum, loads, above[i]))
}

/// The loads as they count for the sum: one that is missing counts as `zero`.
pub open spec fn counted<V>(loads: Seq<Option<V>>, zero: V) -> Seq<V> {
    loads.map_values(
        |load: Option<V>|
            match load {
                Some(value) => value,
                None => zero,
            },
    )
}

/// The sum of all loads, from left to right, starting from `start`; one that is missing counts as
/// `zero`.
pub fn sum_loads<V>(loads: &Vec<Option<V>>, zero: V, start: V) -> (sum: V) where
    V: Copy + Add<V, Output = V>,

    requires
        V::obeys_add_spec(),
        sum_defined(start, counted(loads@, zero)),
    ensures
        sum == sum_from(start, counted(loads@, zero)),
{
    let ghost all = counted(loads@, zero);
    let mut sum: V = start;
    let mut i: usize = 0;
    assert(all.take(0) =~= Seq::<V>::empty());
    while i < loads.len()
        invariant
            V::obeys_add_spec(),
            all == counted(loads@, zero),
            sum_defined(start, all),
            i <= loads.len(),
            sum == sum_from(start, all.take(i as int)),
        decreases loads.len() - i,
    {
        let load: V = match loads[i] {
            Some(value) => value,
            None => zero,
        };
        proof {
            assert(load == all[i as int]);
            assert(all.take(i + 1).drop_last() =~= all.take(i as int));
        }
        sum = sum + load;
        i = i + 1;
    }
    assert(all.take(i as int) =~= all);
    sum
}

impl<V> Field<V> {
    /// What this field prints.
    pub fn text(&self, sum: &str, loads: &Vec<String>, above: bool) -> (text: String)
        ensures
            text@ == field_text(self@, sum@, texts(loads@), above),
    {
        match self {
            Field::Sum => sum.to_owned(),
            Field::AllLoads => join(loads, " "),
            Field::IfGreater { value: _, then, otherwise } => if above {
                then.clone()
            } else {
                match otherwise {
                    Some(text) => text.clone(),
                    None => String::new(),
                }
            },
        }
    }
}

/// The line for one update: what each of `fields` prints, separated by spaces.
///
/// `above` says of each field with a threshold whether the sum of all loads is above it.
pub fn output_line<V>(
    fields: &Vec<Field<V>>,
    sum: &str,
    loads: &Vec<String>,
    above: &Vec<bool>,
) -> (line: String)
    requires
        above@.len() == fields@.len(),
    ensures
        line@ == joined(field_texts(fields@, sum@, texts(loads@), above@), " "@),
{
    let ghost all = field_texts(fields@, sum@, texts(loads@), above@);
    let mut line: String = String::new();
    let mut i: usize = 0;
    assert(all.take(0) =~= Seq::<Seq<char>>::empty());
    while i < fields.len()
        invariant
            i <= fields@.len(),
            above@.len() == fields@.len(),
            all == field_texts(fields@, sum@, texts(loads@), above@),
            line@ == joined(all.take(i as int), " "@),
        decreases fields@.len() - i,
    {
        if i > 0 {
            line.append(" ");
        }
        let text: String = fields[i].text(sum, loads, above[i]);
        line.append(text.as_str());
        proof {
            assert(text@ == all[i as int]);
            assert(all.take(i + 1).drop_last() =~= all.take(i as int));
            assert(line@ =~= joined(all.take(i + 1), " "@));
        }
        i = i + 1;
    }
    assert(all.take(i as int) =~= all);
    line
}

/// What a line about some loads is made of.
pub struct LineParts<V> {
    /// The loads, without those that are not known.
    pub kept: Seq<Option<V>>,
    /// The text of the sum.
    pub sum: String,
    /// The texts of the loads.
    pub shown: Seq<String>,
    /// Whether the sum is above the threshold of each field that has one.
    pub above: Seq<bool>,
}

impl<V: Add<V, Output = V>> LineParts<V> {
    /// Whether the loads that `known` rejects are left out, and no others.
    pub open spec fn keeps<K: Fn(V) -> bool>(self, loads: Seq<V>, known: K) -> bool {
        &&& self.kept.len() == loads.len()
        &&& forall|i: int|
            0 <= i < loads.len() ==> match #[trigger] self.kept[i] {
                Some(load) => load == loads[i] && call_ensures(known, (loads[i],), true),
                None => call_ensures(known, (loads[i],), false),
            }
    }

    /// Whether `sum` and each of `loads` are shown as `show` shows them.
    pub open spec fn shows<S: Fn(V) -> String>(self, loads: Seq<V>, sum: V, show: S) -> bool {
        &&& call_ensures(show, (sum,), self.sum)
        &&& self.shown.len() == loads.len()
        &&& forall|i: int|
            0 <= i < loads.len() ==> call_ensures(show, (loads[i],), #[trigger] self.shown[i])
    }

    /// Whether `above` has compared `sum` with the threshold of each field that has one.
    pub open spec fn compares<A: Fn(V, V) -> bool>(
        self,
        fields: Seq<Field<V>>,
        sum: V,
        above: A,
    ) -> bool {
        &&& self.above.len() == fields.len()
        &&& forall|i: int|
            0 <= i < fields.len() ==> (#[trigger] fields[i] matches Field::IfGreater { value, .. }
                ==> call_ensures(above, (sum, value), self.above[i]))
    }

    /// The sum of the loads that are kept.
    pub open spec fn total(self, zero: V, start: V) -> V {
        sum_from(start, counted(self.kept, zero))
    }

    /// The line that is made of these.
    pub open spec fn line(self, fields: Seq<Field<V>>) -> Seq<char> {
        joined(field_texts(fields, self.sum@, texts(self.shown), self.above), " "@)
    }
}

/// The line for one update, in which `loads` were measured: what each of `fields` prints of them,
/// separated by spaces.
///
/// A load that `known` rejects counts as `zero` for the sum, which starts from `start`. `show` gives
/// the text of a load or a sum, and `above` says whether a sum is above a threshold.
pub fn loads_line<V, K, S, A>(
    fields: &Vec<Field<V>>,
    loads: &Vec<V>,
    zero: V,
    start: V,
    known: K,
    show: S,
    above: A,
) -> (line: String) where
    V: Copy + Add<V, Output = V>,
    K: Fn(V) -> bool,
    S: Fn(V) -> String,
    A: Fn(V, V) -> bool,

    requires
        V::obeys_add_spec(),
        forall|load: V| #[trigger] call_requires(known, (load,)),
        forall|load: V| #[trigger] call_requires(show, (load,)),
        forall|sum: V, value: V| #[trigger] call_requires(above, (sum, value)),
        forall|parts: LineParts<V>| #[trigger]
            parts.keeps(loads@, known) ==> sum_defined(start, counted(parts.kept, zero)),
    ensures
        exists|parts: LineParts<V>|
            {
                &&& #[trigger] parts.keeps(loads@, known)
                &&& parts.shows(loads@, parts.total(zero, start), show)
                &&& parts.compares(fields@, parts.total(zero, start), above)
                &&& line@ == parts.line(fields@)
            },
{
    let mut kept: Vec<Option<V>> = Vec::new();
    let mut shown: Vec<String> = Vec::new();
    let mut i: usize = 0;
    while i < loads.len()
        invariant
            forall|load: V| #[trigger] call_requires(known, (load,)),
            forall|load: V| #[trigger] call_requires(show, (load,)),
            i <= loads@.len(),
            kept@.len() == i,
            shown@.len() == i,
            forall|j: int|
                0 <= j < i ==> match #[trigger] kept@[j] {
                    Some(load) => load == loads@[j] && call_ensures(known, (loads@[j],), true),
                    None => call_ensures(known, (loads@[j],), false),
                },
            forall|j: int| 0 <= j < i ==> call_ensures(show, (loads@[j],), #[trigger] shown@[j]),
        decreases loads@.len() - i,
    {
        let load: V = loads[i];
        kept.push(
            if known(load) {
                Some(load)
            } else {
                None
            },
        );
        shown.push(show(load));
        i = i + 1;
    }
    proof {
        let parts = LineParts {
            kept: kept@,
            sum: arbitrary(),
            shown: shown@,
            above: Seq::empty(),
        };
        assert(parts.keeps(loads@, known));
    }
    let sum: V = sum_loads(&kept, zero, start);
    let sum_text: String = show(sum);
    let mut decided: Vec<bool> = Vec::new();
    let mut i: usize = 0;
    while i < fields.len()
        invariant
            forall|sum: V, value: V| #[trigger] call_requires(above, (sum, value)),
            i <= fields@.len(),
            decided@.len() == i,
            forall|j: int|
                0 <= j < i ==> (#[trigger] fields@[j] matches Field::IfGreater { value, .. }
                    ==> call_ensures(above, (sum, value), decided@[j])),
        decreases fields@.len() - i,
    {
        let exceeded: bool = match &fields[i] {
            Field::IfGreater { value, then: _, otherwise: _ } => above(sum, *value),
            _ => false,
        };
        decided.push(exceeded);
        i = i + 1;
    }
    let line: String = output_line(fields, sum_text.as_str(), &shown, &decided);
    proof {
        let parts = LineParts { kept: kept@, sum: sum_text, shown: shown@, above: decided@ };
        assert(parts.keeps(loads@, known));
        assert(parts.shows(loads@, parts.total(zero, start), show));
        assert(parts.compares(fields@, parts.total(zero, start), above));
    }
    line
}

/// Where the sum is above the threshold, a field with a threshold prints its text for that, whatever
/// it has for the other case; otherwise it prints the other text, or nothing where it has none.
pub proof fn threshold_decides_the_text<V>(
    value: V,
    then: Seq<char>,
    otherwise: Option<Seq<char>>,
    sum: Seq<char>,
    loads: Seq<Seq<char>>,
)
    ensures
        field_text(FieldView::IfGreater { value, then, otherwise }, sum, loads, true) == then,
        otherwise is None ==> field_text(
            FieldView::IfGreater { value, then, otherwise },
            sum,
            loads,
            false,
        ) == Seq::<char>::empty(),
        otherwise matches Some(text) ==> field_text(
            FieldView::IfGreater { value, then, otherwise },
            sum,
            loads,
            false,
        ) == text,
{
}

/// The sum is printed as it is. The loads are printed all, in their order, with a space between each
/// two: they can be read off again where no text of a load holds a space.
pub proof fn sum_and_loads_are_printed<V>(sum: Seq<char>, loads: Seq<Seq<char>>, above: bool)
    requires
        forall|i: int| 0 <= i < loads.len() ==> !(#[trigger] loads[i]).contains(' '),
    ensures
        field_text(FieldView::<V>::Sum, sum, loads, above) == sum,
        loads.len() == 0 ==> field_text(FieldView::<V>::AllLoads, sum, loads, above) == Seq::<
            char,
        >::empty(),
        loads.len() > 0 ==> pieces(
            field_text(FieldView::<V>::AllLoads, sum, loads, above),
            ' ',
        ) == loads,
{
    reveal_strlit(" ");
    assert(" "@ =~= seq![' ']);
    if loads.len() > 0 {
        joined_parts_are_the_pieces(loads, ' ');
    }
}

/// A line without fields is empty, and one with a single field is what this prints. Each further
/// field adds a space, also where it prints nothing, and what it prints.
pub proof fn line_grows_field_by_field<V: Add<V, Output = V>>(
    parts: LineParts<V>,
    fields: Seq<Field<V>>,
    field: Field<V>,
)
    requires
        parts.above.len() > fields.len(),
    ensures
        ({
            let above = parts.above[fields.len() as int];
            let text = match field {
                Field::Sum => parts.sum@,
                Field::AllLoads => joined(texts(parts.shown), seq![' ']),
                Field::IfGreater { then, otherwise, .. } => match (above, otherwise) {
                    (true, _) => then@,
                    (false, Some(other)) => other@,
                    (false, None) => Seq::empty(),
                },
            };
            parts.line(fields.push(field)) == if fields.len() == 0 {
                text
            } else {
                parts.line(fields) + seq![' '] + text
            }
        }),
        fields.len() == 0 ==> parts.line(fields) == Seq::<char>::empty(),
{
    reveal_strlit(" ");
    assert(" "@ =~= seq![' ']);
    let shown = texts(parts.shown);
    let all = field_texts(fields.push(field), parts.sum@, shown, parts.above);
    assert(all.drop_last() =~= field_texts(fields, parts.sum@, shown, parts.above));
    assert(all.last() == field_text(
        field@,
        parts.sum@,
        shown,
        parts.above[fields.len() as int],
    ));
}

/// The sum starts from `start`, each load that is known is added to it, and one that is not known
/// counts as `zero`.
pub proof fn unknown_loads_count_as_zero<V: Add<V, Output = V>>(
    loads: Seq<Option<V>>,
    zero: V,
    start: V,
    load: V,
)
    ensures
        sum_from(start, counted(Seq::<Option<V>>::empty(), zero)) == start,
        sum_from(start, counted(loads.push(Some(load)), zero)) == sum_from(
            start,
            counted(loads, zero),
        ).add_spec(load),
        sum_from(start, counted(loads.push(None), zero)) == sum_from(
            start,
            counted(loads, zero),
        ).add_spec(zero),
{
    assert(counted(loads.push(Some(load)), zero).drop_last() =~= counted(loads, zero));
    assert(counted(loads.push(None), zero).drop_last() =~= counted(loads, zero));
}

/// What a line says is true of the loads: the load in each place counts if it is known and only
/// then, its text is its own, and each threshold is compared with the sum.
pub proof fn line_is_true_of_its_loads<V, K, S, A>(
    parts: LineParts<V>,
    fields: Seq<Field<V>>,
    loads: Seq<V>,
    zero: V,
    start: V,
    known: K,
    show: S,
    above: A,
    i: int,
) where V: Add<V, Output = V>, K: Fn(V) -> bool, S: Fn(V) -> String, A: Fn(V, V) -> bool
    requires
        parts.keeps(loads, known),
        parts.shows(loads, parts.total(zero, start), show),
        parts.compares(fields, parts.total(zero, start), above),
    ensures
        ({
            let sum = sum_from(start, counted(parts.kept, zero));
            &&& call_ensures(show, (sum,), parts.sum)
            &&& parts.kept.len() == loads.len() && parts.shown.len() == loads.len()
            &&& 0 <= i < loads.len() ==> {
                &&& parts.kept[i] == Some(loads[i]) || parts.kept[i] is None
                &&& call_ensures(known, (loads[i],), parts.kept[i] is Some)
                &&& call_ensures(show, (loads[i],), parts.shown[i])
            }
            &&& 0 <= i < fields.len() ==> (fields[i] matches Field::IfGreater { value, .. }
                ==> call_ensures(above, (sum, value), parts.above[i]))
        }),
{
}

} // verus!
