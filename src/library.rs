use crate::lookup::{entry_get, find_key, insert_entry, remove_entries};
use crate::script::{opt_chars, VnResult};
use crate::value::{model_eq, model_get, same_tag, ValueModel, VnValue, find_value};
use vstd::prelude::*;

verus! {

/// The named values that actions share while a story runs.
#[derive(Debug)]
pub struct Globals {
    pub properties: Vec<(String, VnValue)>,
}

impl Globals {
    pub fn new() -> (r: Globals)
        ensures
            r.properties@.len() == 0,
    {
        Globals { properties: Vec::new() }
    }

    /// The value stored under `name`.
    pub fn get(&self, name: &str) -> (r: Option<&VnValue>)
        ensures
            r matches Some(v) ==> entry_get(self.properties@, name@) == Some(*v),
            r is None ==> entry_get(self.properties@, name@) is None,
    {
        match find_key(&self.properties, name) {
            Some(i) => Some(&self.properties[i].1),
            None => None,
        }
    }
}

/// The text of a value, if it is a text.
pub open spec fn text_of(v: ValueModel) -> Option<Seq<char>> {
    match v {
        ValueModel::Text(t) => Some(t),
        _ => None,
    }
}

/// Some item of `held` equals `x`.
pub open spec fn holds_item(held: Seq<ValueModel>, x: ValueModel) -> bool {
    exists|j: int| 0 <= j < held.len() && model_eq(#[trigger] held[j], x)
}

/// Every item of `wanted` equals some item of `held`.
pub open spec fn array_has_items(held: Seq<ValueModel>, wanted: Seq<ValueModel>) -> bool {
    forall|i: int| 0 <= i < wanted.len() ==> holds_item(held, #[trigger] wanted[i])
}

/// Every entry of `wanted` is held under its key with an equal value.
pub open spec fn dict_has_items(
    held: Seq<(Seq<char>, ValueModel)>,
    wanted: Seq<(Seq<char>, ValueModel)>,
) -> bool {
    forall|i: int|
        0 <= i < wanted.len() ==> match model_get(held, (#[trigger] wanted[i]).0) {
            Some(v) => model_eq(v, wanted[i].1),
            None => false,
        }
}

/// The clause `has_items`: only arrays against arrays and dictionaries against dictionaries.
pub open spec fn has_items_holds(global: ValueModel, wanted: ValueModel) -> bool {
    match (global, wanted) {
        (ValueModel::Array(a), ValueModel::Array(b)) => array_has_items(a, b),
        (ValueModel::Dict(a), ValueModel::Dict(b)) => dict_has_items(a, b),
        _ => false,
    }
}

/// Every clause that is not `Null` holds of `global`.
pub open spec fn query_holds(
    global: ValueModel,
    is_type: ValueModel,
    equals: ValueModel,
    not_equals: ValueModel,
    less_than: ValueModel,
    greater_than: ValueModel,
    has_items: ValueModel,
) -> bool {
    &&& (is_type !is Null ==> same_tag(global, is_type))
    &&& (equals !is Null ==> model_eq(global, equals))
    &&& (not_equals !is Null ==> !model_eq(global, not_equals))
    &&& (less_than !is Null ==> match (global, less_than) {
        (ValueModel::Number(a), ValueModel::Number(b)) => a.less(b),
        _ => false,
    })
    &&& (greater_than !is Null ==> match (global, greater_than) {
        (ValueModel::Number(a), ValueModel::Number(b)) => b.less(a),
        _ => false,
    })
    &&& (has_items !is Null ==> has_items_holds(global, has_items))
}

fn array_contains(held: &Vec<VnValue>, item: &VnValue) -> (r: bool)
    ensures
        r == exists|j: int| 0 <= j < held.len() && model_eq(#[trigger] held@[j]@, item@),
{
    let mut j: usize = 0;
    while j < held.len()
        invariant
            j <= held.len(),
            forall|k: int| 0 <= k < j ==> !model_eq(#[trigger] held@[k]@, item@),
        decreases held.len() - j,
    {
        if held[j].eq(item) {
            return true;
        }
        j = j + 1;
    }
    false
}

fn check_has_items(global: &VnValue, wanted: &VnValue) -> (r: bool)
    ensures
        r == has_items_holds(global@, wanted@),
{
    match (global, wanted) {
        (VnValue::Array(a), VnValue::Array(b)) => {
            let mut i: usize = 0;
            while i < b.len()
                invariant
                    *global == VnValue::Array(*a),
                    *wanted == VnValue::Array(*b),
                    i <= b.len(),
                    forall|k: int| 0 <= k < i ==> exists|j: int|
                        0 <= j < a.len() && model_eq(#[trigger] a@[j]@, (#[trigger] b@[k])@),
                decreases b.len() - i,
            {
                if !array_contains(a, &b[i]) {
                    proof {
                        assert(wanted@->Array_0[i as int] == b@[i as int]@);
                        assert forall|j: int| 0 <= j < a.len() implies !model_eq(
                            #[trigger] global@->Array_0[j],
                            wanted@->Array_0[i as int],
                        ) by {
                            assert(global@->Array_0[j] == a@[j]@);
                        }
                        assert(!holds_item(global@->Array_0, wanted@->Array_0[i as int]));
                    }
                    return false;
                }
                i = i + 1;
            }
            proof {
                assert(wanted@->Array_0.len() == b.len());
                assert forall|k: int| 0 <= k < wanted@->Array_0.len() implies holds_item(
                    global@->Array_0,
                    #[trigger] wanted@->Array_0[k],
                ) by {
                    assert(wanted@->Array_0[k] == b@[k]@);
                    let j = choose|j: int| 0 <= j < a.len() && model_eq(#[trigger] a@[j]@, b@[k]@);
                    assert(global@->Array_0[j] == a@[j]@);
                    assert(model_eq(global@->Array_0[j], wanted@->Array_0[k]));
                }
                assert(array_has_items(global@->Array_0, wanted@->Array_0));
            }
            true
        },
        (VnValue::Dict(a), VnValue::Dict(b)) => {
            let mut i: usize = 0;
            while i < b.len()
                invariant
                    *global == VnValue::Dict(*a),
                    *wanted == VnValue::Dict(*b),
                    i <= b.len(),
                    forall|k: int| 0 <= k < i ==> match model_get(global@->Dict_0, (#[trigger] wanted@->Dict_0[k]).0) {
                        Some(v) => model_eq(v, wanted@->Dict_0[k].1),
                        None => false,
                    },
                decreases b.len() - i,
            {
                assert(wanted@->Dict_0[i as int] == (b@[i as int].0@, b@[i as int].1@));
                match find_value(a, b[i].0.as_str()) {
                    Some(v) => {
                        assert(model_get(global@->Dict_0, b@[i as int].0@) == Some(v@));
                        if !v.eq(&b[i].1) {
                            return false;
                        }
                    },
                    None => {
                        assert(model_get(global@->Dict_0, b@[i as int].0@) is None);
                        return false;
                    },
                }
                i = i + 1;
            }
            assert(wanted@->Dict_0.len() == b.len());
            assert(dict_has_items(global@->Dict_0, wanted@->Dict_0));
            true
        },
        _ => {
            assert(!(global@ is Array && wanted@ is Array));
            assert(!(global@ is Dict && wanted@ is Dict));
            false
        },
    }
}

fn validate_query(
    global: &VnValue,
    is_type: VnValue,
    equals: VnValue,
    not_equals: VnValue,
    less_than: VnValue,
    greater_than: VnValue,
    has_items: VnValue,
) -> (r: bool)
    ensures
        r == query_holds(
            global@,
            is_type@,
            equals@,
            not_equals@,
            less_than@,
            greater_than@,
            has_items@,
        ),
{
    if !is_type.is_none() && !global.is_same_type(&is_type) {
        return false;
    }
    if !equals.is_none() && !global.eq(&equals) {
        return false;
    }
    if !not_equals.is_none() && global.eq(&not_equals) {
        return false;
    }
    if !less_than.is_none() {
        let result = match (global, &less_than) {
            (VnValue::Number(a), VnValue::Number(b)) => a.less_than(b),
            _ => false,
        };
        if !result {
            return false;
        }
    }
    if !greater_than.is_none() {
        let result = match (global, &greater_than) {
            (VnValue::Number(a), VnValue::Number(b)) => b.less_than(a),
            _ => false,
        };
        if !result {
            return false;
        }
    }
    if !has_items.is_none() && !check_has_items(global, &has_items) {
        return false;
    }
    true
}

/// Whether an action guarded by `global` and the query clauses may take effect:
/// always when `global` names no global, else when the named global exists and the
/// clauses hold of it.
pub open spec fn guard_open(
    globals: Seq<(String, VnValue)>,
    global: ValueModel,
    is_type: ValueModel,
    equals: ValueModel,
    not_equals: ValueModel,
    less_than: ValueModel,
    greater_than: ValueModel,
    has_items: ValueModel,
) -> bool {
    match text_of(global) {
        Some(name) => match entry_get(globals, name) {
            Some(g) => query_holds(g@, is_type, equals, not_equals, less_than, greater_than, has_items),
            None => false,
        },
        None => true,
    }
}

fn check_guard(
    globals: &Globals,
    global: VnValue,
    is_type: VnValue,
    equals: VnValue,
    not_equals: VnValue,
    less_than: VnValue,
    greater_than: VnValue,
    has_items: VnValue,
) -> (r: bool)
    ensures
        r == guard_open(
            globals.properties@,
            global@,
            is_type@,
            equals@,
            not_equals@,
            less_than@,
            greater_than@,
            has_items@,
        ),
{
    match global.as_text() {
        Some(name) => match globals.get(name) {
            Some(g) => validate_query(g, is_type, equals, not_equals, less_than, greater_than, has_items),
            None => false,
        },
        None => true,
    }
}

fn owned_text(v: &VnValue) -> (r: Option<String>)
    ensures
        opt_chars(r) == text_of(v@),
{
    match v.as_text() {
        Some(t) => Some(t.to_owned()),
        None => None,
    }
}

/// Stores `value` under the global named by `name`.
pub fn set_global(globals: &mut Globals, name: VnValue, value: VnValue) -> (r: VnResult)
    requires
        name is Text,
    ensures
        r is Continue,
        forall|k: Seq<char>| #[trigger]
            entry_get(final(globals).properties@, k) == if k == name->Text_0@ {
                Some(value)
            } else {
                entry_get(old(globals).properties@, k)
            },
{
    match name {
        VnValue::Text(n) => {
            insert_entry(&mut globals.properties, n, value);
        },
        _ => {},
    }
    VnResult::Continue
}

/// Removes the global named by `name`.
pub fn delete_global(globals: &mut Globals, name: VnValue) -> (r: VnResult)
    requires
        name is Text,
    ensures
        r is Continue,
        forall|k: Seq<char>| #[trigger]
            entry_get(final(globals).properties@, k) == if k == name->Text_0@ {
                None
            } else {
                entry_get(old(globals).properties@, k)
            },
{
    match name {
        VnValue::Text(n) => {
            remove_entries(&mut globals.properties, n.as_str());
        },
        _ => {},
    }
    VnResult::Continue
}

/// Jumps to `chapter` (or the current one) at `label`, when its guard holds.
pub fn jump(
    globals: &Globals,
    chapter: VnValue,
    label: VnValue,
    global: VnValue,
    is_type: VnValue,
    equals: VnValue,
    not_equals: VnValue,
    less_than: VnValue,
    greater_than: VnValue,
    has_items: VnValue,
) -> (r: VnResult)
    ensures
        guard_open(
            globals.properties@,
            global@,
            is_type@,
            equals@,
            not_equals@,
            less_than@,
            greater_than@,
            has_items@,
        ) ==> (r matches VnResult::JumpTo { chapter: c, label: l } && opt_chars(c) == text_of(
            chapter@,
        ) && opt_chars(l) == text_of(label@)),
        !guard_open(
            globals.properties@,
            global@,
            is_type@,
            equals@,
            not_equals@,
            less_than@,
            greater_than@,
            has_items@,
        ) ==> r is Continue,
{
    if !check_guard(globals, global, is_type, equals, not_equals, less_than, greater_than, has_items) {
        return VnResult::Continue;
    }
    VnResult::JumpTo { chapter: owned_text(&chapter), label: owned_text(&label) }
}

/// Enters `chapter` (or the current one) at `label` as a nested call, when its guard holds.
pub fn enter(
    globals: &Globals,
    chapter: VnValue,
    label: VnValue,
    global: VnValue,
    is_type: VnValue,
    equals: VnValue,
    not_equals: VnValue,
    less_than: VnValue,
    greater_than: VnValue,
    has_items: VnValue,
) -> (r: VnResult)
    ensures
        guard_open(
            globals.properties@,
            global@,
            is_type@,
            equals@,
            not_equals@,
            less_than@,
            greater_than@,
            has_items@,
        ) ==> (r matches VnResult::Enter { chapter: c, label: l } && opt_chars(c) == text_of(
            chapter@,
        ) && opt_chars(l) == text_of(label@)),
        !guard_open(
            globals.properties@,
            global@,
            is_type@,
            equals@,
            not_equals@,
            less_than@,
            greater_than@,
            has_items@,
        ) ==> r is Continue,
{
    if !check_guard(globals, global, is_type, equals, not_equals, less_than, greater_than, has_items) {
        return VnResult::Continue;
    }
    VnResult::Enter { chapter: owned_text(&chapter), label: owned_text(&label) }
}

/// Returns from the current chapter, when its guard holds.
pub fn exit(
    globals: &Globals,
    global: VnValue,
    is_type: VnValue,
    equals: VnValue,
    not_equals: VnValue,
    less_than: VnValue,
    greater_than: VnValue,
    has_items: VnValue,
) -> (r: VnResult)
    ensures
        guard_open(
            globals.properties@,
            global@,
            is_type@,
            equals@,
            not_equals@,
            less_than@,
            greater_than@,
            has_items@,
        ) ==> r is Exit,
        !guard_open(
            globals.properties@,
            global@,
            is_type@,
            equals@,
            not_equals@,
            less_than@,
            greater_than@,
            has_items@,
        ) ==> r is Continue,
{
    if !check_guard(globals, global, is_type, equals, not_equals, less_than, greater_than, has_items) {
        return VnResult::Continue;
    }
    VnResult::Exit
}

} // verus!
