//! How many numbers a model has learned: the variables of a store, counted.

use crate::shapes::{
    copy_dims, lemma_empty_product, lemma_full_product, lemma_product_concat, lemma_product_push,
    product,
};
use candle_nn::VarMap;
use vstd::prelude::*;

verus! {

/// A variable: its name and the sizes of its dimensions.
pub struct Parameter {
    pub name: String,
    pub dims: Vec<usize>,
}

/// A variable with the number of its elements.
pub struct CountedParameter {
    pub name: String,
    pub dims: Vec<usize>,
    pub count: usize,
}

/// The variables of a store with the numbers of their elements, and the sum of those numbers.
pub struct ParameterReport {
    pub parameters: Vec<CountedParameter>,
    pub total: usize,
}

/// No two variables have the same name.
pub open spec fn names_differ(parameters: Seq<Parameter>) -> bool {
    forall|i: int, j: int|
        0 <= i < j < parameters.len() ==> (#[trigger] parameters[i]).name@ != (
        #[trigger] parameters[j]).name@
}

/// `VarMap::data`: the variables of the store in the order in which its map is walked, or `None`
/// where its lock is poisoned. No two have the same name. Which variables there are is left
/// unsaid: the store changes behind shared references.
#[verifier::external_body]
fn variables(vars: &VarMap) -> (r: Option<Vec<Parameter>>)
    ensures
        r matches Some(parameters) ==> names_differ(parameters@),
{
    let data = vars.data().lock().ok()?;
    let list = data.iter().map(
        |(name, var)| Parameter { name: name.clone(), dims: var.dims().to_vec() },
    );
    Some(list.collect())
}

/// `parameters` are what reading the variables of the store gives.
pub closed spec fn stored(vars: &VarMap, parameters: Seq<Parameter>) -> bool {
    exists|list: Vec<Parameter>|
        list@ == parameters && #[trigger] call_ensures(variables, (vars,), Some(list))
}

/// Reading the variables of the store fails.
pub closed spec fn unreadable(vars: &VarMap) -> bool {
    call_ensures(variables, (vars,), None::<Vec<Parameter>>)
}

/// The numbers of elements of some variables.
pub open spec fn counts(parameters: Seq<Parameter>) -> Seq<nat> {
    parameters.map_values(|p: Parameter| product(p.dims@))
}

/// The sum of some numbers.
pub open spec fn total(counts: Seq<nat>) -> nat
    decreases counts.len(),
{
    if counts.len() == 0 {
        0
    } else {
        total(counts.drop_last()) + counts.last()
    }
}

/// Leaving one number out takes it from the sum.
proof fn lemma_total_without(counts: Seq<nat>, i: int)
    requires
        0 <= i < counts.len(),
    ensures
        total(counts) == total(counts.remove(i)) + counts[i],
    decreases counts.len(),
{
    let last = counts.len() - 1;
    if i == last {
        assert(counts.remove(i) =~= counts.drop_last());
    } else {
        lemma_total_without(counts.drop_last(), i);
        assert(counts.remove(i).drop_last() =~= counts.drop_last().remove(i));
        assert(counts.remove(i).last() == counts.last());
    }
}

/// The sum of some numbers does not depend on their order.
pub proof fn law_total_ignores_order(a: Seq<nat>, b: Seq<nat>)
    requires
        a.to_multiset() == b.to_multiset(),
    ensures
        total(a) == total(b),
    decreases a.len(),
{
    broadcast use vstd::seq_lib::group_to_multiset_ensures;

    assert(a.len() == a.to_multiset().len());
    assert(b.len() == b.to_multiset().len());
    if a.len() > 0 {
        let value = a.last();
        assert(a.contains(value));
        assert(a.to_multiset().count(value) > 0);
        assert(b.contains(value));
        let i = choose|i: int| 0 <= i < b.len() && b[i] == value;
        lemma_total_without(b, i);
        let last = a.len() - 1;
        assert(a.remove(last) =~= a.drop_last());
        assert(a.remove(last).to_multiset() =~= a.to_multiset().remove(value));
        assert(b.remove(i).to_multiset() =~= b.to_multiset().remove(value));
        law_total_ignores_order(a.drop_last(), b.remove(i));
    }
}

/// The number of elements of a shape, or `None` where it exceeds a `usize`.
pub fn element_count(dims: &[usize]) -> (r: Option<usize>)
    ensures
        r is Some <==> product(dims@) <= usize::MAX,
        r matches Some(count) ==> count == product(dims@),
{
    let mut i: usize = 0;
    while i < dims.len()
        invariant
            i <= dims@.len(),
            forall|k: int| 0 <= k < i ==> #[trigger] dims@[k] > 0,
        decreases dims@.len() - i,
    {
        if dims[i] == 0 {
            proof {
                lemma_empty_product(dims@, i as int);
            }
            return Some(0);
        }
        i += 1;
    }
    let mut count: usize = 1;
    let mut k: usize = 0;
    while k < dims.len()
        invariant
            k <= dims@.len(),
            forall|j: int| 0 <= j < dims@.len() ==> #[trigger] dims@[j] > 0,
            count == product(dims@.take(k as int)),
        decreases dims@.len() - k,
    {
        proof {
            let front = dims@.take(k as int);
            assert(dims@.take(k + 1) =~= front.push(dims@[k as int]));
            lemma_product_push(front, dims@[k as int]);
            let rest = dims@.skip(k + 1);
            lemma_full_product(rest);
            lemma_product_concat(dims@.take(k + 1), rest);
            assert(dims@.take(k + 1) + rest =~= dims@);
            let p = product(dims@.take(k + 1)) as int;
            let q = product(rest) as int;
            assert(p <= p * q) by (nonlinear_arith)
                requires
                    0 <= p,
                    1 <= q,
            ;
        }
        match count.checked_mul(dims[k]) {
            Some(next) => {
                count = next;
            },
            None => {
                return None;
            },
        }
        k += 1;
    }
    assert(dims@.take(k as int) =~= dims@);
    Some(count)
}

/// The first numbers sum up to no more than all.
proof fn lemma_total_grows(counts: Seq<nat>, i: int)
    requires
        0 <= i <= counts.len(),
    ensures
        total(counts.take(i)) <= total(counts),
    decreases counts.len(),
{
    if i == counts.len() {
        assert(counts.take(i) =~= counts);
    } else {
        lemma_total_grows(counts.drop_last(), i);
        assert(counts.drop_last().take(i) =~= counts.take(i));
    }
}

/// `counted` is `parameter` with the number of its elements.
pub open spec fn is_counted(parameter: Parameter, counted: CountedParameter) -> bool {
    &&& counted.name@ == parameter.name@
    &&& counted.dims@ == parameter.dims@
    &&& counted.count == product(parameter.dims@)
}

impl ParameterReport {
    /// The report is on the given variables, in their order.
    pub open spec fn is_on(self, parameters: Seq<Parameter>) -> bool {
        &&& self.parameters@.len() == parameters.len()
        &&& forall|i: int|
            0 <= i < parameters.len() ==> is_counted(
                parameters[i],
                #[trigger] self.parameters@[i],
            )
        &&& self.total == total(counts(parameters))
    }
}

/// The report on some variables, or `None` where they have more elements than a `usize` holds.
pub fn count_parameters(parameters: &[Parameter]) -> (r: Option<ParameterReport>)
    ensures
        r is Some <==> total(counts(parameters@)) <= usize::MAX,
        r matches Some(report) ==> report.is_on(parameters@),
{
    let mut counted: Vec<CountedParameter> = Vec::new();
    let mut sum: usize = 0;
    let mut i: usize = 0;
    while i < parameters.len()
        invariant
            i <= parameters@.len(),
            counted@.len() == i,
            sum == total(counts(parameters@).take(i as int)),
            forall|k: int| 0 <= k < i ==> is_counted(parameters@[k], #[trigger] counted@[k]),
        decreases parameters@.len() - i,
    {
        let parameter: &Parameter = &parameters[i];
        proof {
            let all = counts(parameters@);
            assert(all.take(i + 1).drop_last() =~= all.take(i as int));
            assert(all.take(i + 1).last() == product(parameter.dims@));
            lemma_total_grows(all, i + 1);
        }
        let count: usize = match element_count(&parameter.dims) {
            Some(count) => count,
            None => {
                return None;
            },
        };
        sum = match sum.checked_add(count) {
            Some(sum) => sum,
            None => {
                return None;
            },
        };
        counted.push(
            CountedParameter {
                name: parameter.name.clone(),
                dims: copy_dims(&parameter.dims),
                count,
            },
        );
        i += 1;
    }
    assert(counts(parameters@).take(i as int) =~= counts(parameters@));
    Some(ParameterReport { parameters: counted, total: sum })
}

/// The report on the variables of a store, or `None` where the store cannot be read or its
/// variables have more elements than a `usize` holds.
pub fn report_parameters(vars: &VarMap) -> (r: Option<ParameterReport>)
    ensures
        match r {
            Some(report) => exists|parameters: Seq<Parameter>|
                #![trigger stored(vars, parameters)]
                stored(vars, parameters) && names_differ(parameters) && report.is_on(parameters),
            None => unreadable(vars) || exists|parameters: Seq<Parameter>| #[trigger]
                stored(vars, parameters) && total(counts(parameters)) > usize::MAX,
        },
{
    match variables(vars) {
        Some(parameters) => {
            assert(stored(vars, parameters@));
            count_parameters(&parameters)
        },
        None => None,
    }
}

/// No numbers sum up to nothing, and one number more adds itself to the sum.
pub proof fn law_total_adds_up(counts: Seq<nat>, count: nat)
    ensures
        total(Seq::empty()) == 0,
        total(counts.push(count)) == total(counts) + count,
{
    assert(counts.push(count).drop_last() =~= counts);
}

/// A report lists every variable, in the order of the variables, with its name, its sizes and their
/// product, and its total is the sum of all of those.
pub proof fn law_report_counts_every_variable(
    parameters: &[Parameter],
    report: ParameterReport,
    i: int,
)
    requires
        call_ensures(count_parameters, (parameters,), Some(report)),
        0 <= i < parameters@.len(),
    ensures
        report.parameters@.len() == parameters@.len(),
        report.parameters@[i].name@ == parameters@[i].name@,
        report.parameters@[i].dims@ == parameters@[i].dims@,
        report.parameters@[i].count == product(parameters@[i].dims@),
        report.total == total(Seq::new(parameters@.len(), |k: int| product(parameters@[k].dims@))),
{
    assert(is_counted(parameters@[i], report.parameters@[i]));
    assert(counts(parameters@) =~= Seq::new(
        parameters@.len(),
        |k: int| product(parameters@[k].dims@),
    ));
}

/// The variables of a store are what reading it gives, and a store is unreadable where reading it
/// fails.
proof fn law_variables_are_read_from_the_store(vars: &VarMap, parameters: Seq<Parameter>)
    ensures
        stored(vars, parameters) <==> exists|list: Vec<Parameter>|
            list@ == parameters && #[trigger] call_ensures(variables, (vars,), Some(list)),
        unreadable(vars) <==> call_ensures(variables, (vars,), None::<Vec<Parameter>>),
{
}

} // verus!
