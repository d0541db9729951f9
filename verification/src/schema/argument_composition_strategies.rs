//! How the values that subgraphs give to an argument of a directive become one value.

use crate::ast::type_text;
use crate::ast::Type;
use crate::ast::TypeView;
use crate::ast::Value;
use crate::ast::ValueView;
use crate::operation::equality::same_value;
use crate::schema::Schema;
use crate::text::decimal;
use crate::text::digit_char;
use crate::text::joined;
use crate::text::same;
use crate::text::Text;
use vstd::prelude::*;

verus! {

// Integers as they are written.

/// Whether a character is a decimal digit.
pub open spec fn is_digit(c: char) -> bool {
    '0' <= c <= '9'
}

/// The number that decimal digits stand for.
pub open spec fn digits_value(digits: Text) -> nat
    decreases digits.len(),
{
    if digits.len() == 0 {
        0
    } else {
        digits_value(digits.drop_last()) * 10 + (digits.last() as int - 48) as nat
    }
}

/// Whether an integer starts with a minus sign.
pub open spec fn is_negative(text: Text) -> bool {
    text.len() > 0 && text[0] == '-'
}

/// The digits of an integer.
pub open spec fn digits_of(text: Text) -> Text {
    if is_negative(text) {
        text.skip(1)
    } else {
        text
    }
}

/// Whether a text is an integer as it is written: digits, the first of which is no zero if there
/// are several, perhaps behind a minus sign.
pub open spec fn int_syntax(text: Text) -> bool {
    let digits = digits_of(text);
    &&& digits.len() > 0
    &&& digits.len() > 1 ==> digits[0] != '0'
    &&& forall|i: int| 0 <= i < digits.len() ==> is_digit(#[trigger] digits[i])
}

/// The number that an integer stands for.
pub open spec fn int_value(text: Text) -> int {
    if is_negative(text) {
        -(digits_value(digits_of(text)) as int)
    } else {
        digits_value(text) as int
    }
}

/// Whether a number has 32 bits.
pub open spec fn fits(value: int) -> bool {
    i32::MIN <= value <= i32::MAX
}

/// A number as it is written.
pub open spec fn int_text(value: int) -> Text {
    if value < 0 {
        seq!['-'] + decimal((-value) as nat)
    } else {
        decimal(value as nat)
    }
}

/// Calls `IntValue::try_to_i32` of apollo-compiler on an integer as it is written, which is the
/// number if it has 32 bits, and an error if not.
#[verifier::external_body]
pub(crate) fn try_to_i32(text: &str) -> (r: Option<i32>)
    requires
        int_syntax(text@),
    ensures
        match r {
            Some(value) => value == int_value(text@),
            None => !fits(int_value(text@)),
        },
{
    apollo_compiler::ast::IntValue::new_parsed(text).try_to_i32().ok()
}

/// Calls `IntValue::from` of apollo-compiler, which writes a number in decimal.
#[verifier::external_body]
pub(crate) fn int_from(value: i32) -> (r: String)
    ensures
        r@ == int_text(value as int),
{
    apollo_compiler::ast::IntValue::from(value).as_str().to_owned()
}

proof fn lemma_decimal(n: nat)
    ensures
        decimal(n).len() > 0,
        forall|i: int| 0 <= i < decimal(n).len() ==> is_digit(#[trigger] decimal(n)[i]),
        digits_value(decimal(n)) == n,
        decimal(n).len() > 1 ==> decimal(n)[0] != '0',
        n > 0 ==> decimal(n)[0] != '0',
    decreases n,
{
    reveal_with_fuel(digits_value, 2);
    if n < 10 {
        let d = digit_char(n as int);
        assert(d as int == n + 48);
        assert(decimal(n) == seq![d]);
        assert(decimal(n).drop_last() =~= Seq::empty());
    } else {
        let d = digit_char((n % 10) as int);
        lemma_decimal(n / 10);
        assert(d as int == n % 10 + 48);
        assert(decimal(n) == decimal(n / 10).push(d));
        assert(decimal(n).drop_last() =~= decimal(n / 10));
        assert(decimal(n).last() == d);
        assert(decimal(n)[0] == decimal(n / 10)[0]);
    }
}

/// A number that was written is an integer, and reading it gives the number back.
pub proof fn law_numbers_are_read_back(value: int)
    ensures
        int_syntax(int_text(value)),
        int_value(int_text(value)) == value,
{
    if value < 0 {
        lemma_decimal((-value) as nat);
        assert(int_text(value).skip(1) =~= decimal((-value) as nat));
    } else {
        lemma_decimal(value as nat);
        assert(is_digit(decimal(value as nat)[0]));
        assert(!is_negative(int_text(value)));
    }
}

// Types.

/// The type of integers that are not null.
pub open spec fn non_null_int() -> TypeView {
    TypeView::NonNullNamed("Int"@)
}

/// The first `n` types, separated by commas.
pub open spec fn types_text(types: Seq<TypeView>, n: nat) -> Text
    decreases n,
{
    if n == 0 {
        Seq::empty()
    } else if n == 1 {
        type_text(types[0])
    } else {
        types_text(types, (n - 1) as nat) + ", "@ + type_text(types[n - 1])
    }
}

/// Whether a type is one of some types; if not, which types they are.
pub open spec fn one_of(types: Seq<TypeView>, ty: TypeView) -> Result<(), Text> {
    if types.contains(ty) {
        Ok(())
    } else {
        Err("type(s) "@ + types_text(types, types.len()))
    }
}

/// Whether a type is a list that is not null.
pub open spec fn non_null_list(ty: TypeView) -> Result<(), Text> {
    if ty is NonNullList {
        Ok(())
    } else {
        Err("non-nullable list types of any type"@)
    }
}

/// The content of a result with a text as its error.
pub open spec fn supported_view(r: Result<(), String>) -> Result<(), Text> {
    match r {
        Ok(_) => Ok(()),
        Err(text) => Err(text@),
    }
}

impl Type {
    /// Whether two references are the same.
    pub fn same_as(&self, other: &Type) -> (r: bool)
        ensures
            r == (self.deep_view() == other.deep_view()),
        decreases self,
    {
        match (self, other) {
            (Type::Named(a), Type::Named(b)) => same(a, b),
            (Type::NonNullNamed(a), Type::NonNullNamed(b)) => same(a, b),
            (Type::List(a), Type::List(b)) => a.same_as(b),
            (Type::NonNullList(a), Type::NonNullList(b)) => a.same_as(b),
            _ => false,
        }
    }
}

/// Supports some types.
pub struct FixedTypeSupportValidator {
    pub supported_types: Vec<Type>,
}

impl FixedTypeSupportValidator {
    /// Supports integers that are not null.
    pub fn for_int() -> (r: Self)
        ensures
            r.supported_types.deep_view() == seq![non_null_int()],
    {
        let r = FixedTypeSupportValidator {
            supported_types: vec![Type::NonNullNamed("Int".to_owned())],
        };
        assert(r.supported_types.deep_view() =~= seq![non_null_int()]);
        r
    }

    /// Whether a type is supported; if not, which types are.
    pub fn is_type_supported(&self, schema: &Schema, ty: &Type) -> (r: Result<(), String>)
        ensures
            supported_view(r) == one_of(self.supported_types.deep_view(), ty.deep_view()),
    {
        let ghost all = self.supported_types.deep_view();
        let mut i: usize = 0;
        while i < self.supported_types.len()
            invariant
                i <= self.supported_types@.len(),
                all == self.supported_types.deep_view(),
                forall|j: int| 0 <= j < i ==> (#[trigger] all[j]) != ty.deep_view(),
            decreases self.supported_types@.len() - i,
        {
            assert(all[i as int] == self.supported_types@[i as int].deep_view());
            if self.supported_types[i].same_as(ty) {
                assert(all.contains(ty.deep_view()));
                return Ok(());
            }
            i += 1;
        }
        assert(!all.contains(ty.deep_view()));
        let mut text = String::new();
        assert(text@ =~= Seq::empty());
        let mut k: usize = 0;
        while k < self.supported_types.len()
            invariant
                k <= self.supported_types@.len(),
                all == self.supported_types.deep_view(),
                text@ == types_text(all, k as nat),
            decreases self.supported_types@.len() - k,
        {
            assert(all[k as int] == self.supported_types@[k as int].deep_view());
            let ghost before = text@;
            let own = self.supported_types[k].to_text();
            if k > 0 {
                text.append(", ");
                text.append(&own);
                assert(text@ =~= before + ", "@ + own@);
            } else {
                text.append(&own);
                assert(text@ =~= own@);
            }
            k += 1;
        }
        Err(joined("type(s) ", &text))
    }
}

fn support_any_non_null_array(ty: &Type) -> (r: Result<(), String>)
    ensures
        supported_view(r) == non_null_list(ty.deep_view()),
{
    if !ty.is_non_null() || !ty.is_list() {
        Err("non-nullable list types of any type".to_owned())
    } else {
        Ok(())
    }
}

// Numbers.

/// Whether a value is an integer of 32 bits.
pub open spec fn is_int(value: ValueView) -> bool {
    value matches ValueView::Int(text) && int_syntax(text) && fits(int_value(text))
}

/// Whether all values are integers of 32 bits.
pub open spec fn all_ints(values: Seq<ValueView>) -> bool {
    forall|i: int| 0 <= i < values.len() ==> is_int(#[trigger] values[i])
}

/// The number that a value is.
pub open spec fn number(value: ValueView) -> int {
    match value {
        ValueView::Int(text) => int_value(text),
        _ => 0,
    }
}

/// The largest of the first `n` numbers; zero if there is none.
pub open spec fn largest(values: Seq<ValueView>, n: nat) -> int
    decreases n,
{
    if n == 0 {
        0
    } else if n == 1 {
        number(values[0])
    } else {
        let before = largest(values, (n - 1) as nat);
        if number(values[n - 1]) > before {
            number(values[n - 1])
        } else {
            before
        }
    }
}

/// The smallest of the first `n` numbers; zero if there is none.
pub open spec fn smallest(values: Seq<ValueView>, n: nat) -> int
    decreases n,
{
    if n == 0 {
        0
    } else if n == 1 {
        number(values[0])
    } else {
        let before = smallest(values, (n - 1) as nat);
        if number(values[n - 1]) < before {
            number(values[n - 1])
        } else {
            before
        }
    }
}

/// The sum of the first `n` numbers.
pub open spec fn total(values: Seq<ValueView>, n: nat) -> int
    decreases n,
{
    if n == 0 {
        0
    } else {
        total(values, (n - 1) as nat) + number(values[n - 1])
    }
}

/// Whether every sum of the first numbers has 32 bits.
pub open spec fn sums_fit(values: Seq<ValueView>) -> bool {
    forall|n: nat| n <= values.len() ==> fits(#[trigger] total(values, n))
}

fn number_of(value: &Value) -> (r: i32)
    requires
        is_int(value.deep_view()),
    ensures
        r == number(value.deep_view()),
{
    match value {
        Value::Int(text) => match try_to_i32(text) {
            Some(value) => value,
            None => 0,
        },
        _ => 0,
    }
}

fn int_of(value: i32) -> (r: Value)
    ensures
        r.deep_view() == ValueView::Int(int_text(value as int)),
{
    Value::Int(int_from(value))
}

// Lists.

/// Whether all values are lists.
pub open spec fn all_lists(values: Seq<ValueView>) -> bool {
    forall|i: int| 0 <= i < values.len() ==> (#[trigger] values[i]) is List
}

/// The items of a list.
pub open spec fn items_of(value: ValueView) -> Seq<ValueView> {
    match value {
        ValueView::List(items) => items,
        _ => Seq::empty(),
    }
}

/// Those of the first `n` items that are in a list.
pub open spec fn items_in(items: Seq<ValueView>, list: Seq<ValueView>, n: nat) -> Seq<ValueView>
    decreases n,
{
    if n == 0 {
        Seq::empty()
    } else {
        let before = items_in(items, list, (n - 1) as nat);
        if list.contains(items[n - 1]) {
            before.push(items[n - 1])
        } else {
            before
        }
    }
}

/// The items of the first list that are in all the first `n` lists.
pub open spec fn intersection(values: Seq<ValueView>, n: nat) -> Seq<ValueView>
    decreases n,
{
    if n <= 1 {
        items_of(values[0])
    } else {
        let before = intersection(values, (n - 1) as nat);
        items_in(before, items_of(values[n - 1]), before.len())
    }
}

/// Items with those of the first `n` of a list that are not among them.
pub open spec fn with_items(items: Seq<ValueView>, list: Seq<ValueView>, n: nat) -> Seq<ValueView>
    decreases n,
{
    if n == 0 {
        items
    } else {
        let before = with_items(items, list, (n - 1) as nat);
        if before.contains(list[n - 1]) {
            before
        } else {
            before.push(list[n - 1])
        }
    }
}

/// The items of the first `n` lists, each once.
pub open spec fn union_of(values: Seq<ValueView>, n: nat) -> Seq<ValueView>
    decreases n,
{
    if n == 0 {
        Seq::empty()
    } else {
        with_items(
            union_of(values, (n - 1) as nat),
            items_of(values[n - 1]),
            items_of(values[n - 1]).len(),
        )
    }
}

proof fn lemma_items(value: Value)
    requires
        value is List,
    ensures
        items_of(value.deep_view()) == value->List_0.deep_view(),
{
    assert(items_of(value.deep_view()) =~= value->List_0.deep_view());
}

fn has_item(items: &Vec<Value>, item: &Value) -> (r: bool)
    ensures
        r == items.deep_view().contains(item.deep_view()),
{
    let ghost all = items.deep_view();
    let mut i: usize = 0;
    while i < items.len()
        invariant
            i <= items@.len(),
            all == items.deep_view(),
            forall|j: int| 0 <= j < i ==> (#[trigger] all[j]) != item.deep_view(),
        decreases items@.len() - i,
    {
        assert(all[i as int] == items@[i as int].deep_view());
        if same_value(&items[i], item) {
            assert(all.contains(item.deep_view()));
            return true;
        }
        i += 1;
    }
    false
}

fn retain(items: Vec<Value>, list: &Vec<Value>) -> (r: Vec<Value>)
    ensures
        r.deep_view() == items_in(items.deep_view(), list.deep_view(), items.deep_view().len()),
{
    let ghost all = items.deep_view();
    let mut r: Vec<Value> = Vec::new();
    assert(r.deep_view() =~= Seq::empty());
    let mut i: usize = 0;
    while i < items.len()
        invariant
            i <= items@.len(),
            all == items.deep_view(),
            r.deep_view() == items_in(all, list.deep_view(), i as nat),
        decreases items@.len() - i,
    {
        assert(all[i as int] == items@[i as int].deep_view());
        let ghost before = r.deep_view();
        if has_item(list, &items[i]) {
            r.push(items[i].clone());
            assert(r.deep_view() =~= before.push(all[i as int]));
        }
        i += 1;
    }
    r
}

fn list_of(items: Vec<Value>) -> (r: Value)
    ensures
        r.deep_view() == ValueView::List(items.deep_view()),
{
    let r = Value::List(items);
    proof {
        lemma_items(r);
    }
    r
}

fn intersect(values: &Vec<Value>) -> (r: Vec<Value>)
    requires
        values@.len() > 0,
        all_lists(values.deep_view()),
    ensures
        r.deep_view() == intersection(values.deep_view(), values.deep_view().len()),
{
    let ghost all = values.deep_view();
    assert(all[0] == values@[0].deep_view());
    assert(all[0] is List);
    let mut result: Vec<Value> = Vec::new();
    if let Value::List(first) = &values[0] {
        proof {
            lemma_items(values@[0]);
        }
        result = first.clone();
        assert(result.deep_view() =~= first.deep_view());
    }
    let mut i: usize = 1;
    while i < values.len()
        invariant
            1 <= i <= values@.len(),
            all == values.deep_view(),
            all_lists(all),
            result.deep_view() == intersection(all, i as nat),
        decreases values@.len() - i,
    {
        assert(all[i as int] == values@[i as int].deep_view());
        assert(all[i as int] is List);
        if let Value::List(list) = &values[i] {
            proof {
                lemma_items(values@[i as int]);
            }
            result = retain(result, list);
        }
        i += 1;
    }
    result
}

fn add_items(result: &mut Vec<Value>, list: &Vec<Value>)
    ensures
        final(result).deep_view() == with_items(
            old(result).deep_view(),
            list.deep_view(),
            list.deep_view().len(),
        ),
{
    let ghost start = result.deep_view();
    let ghost all = list.deep_view();
    let mut i: usize = 0;
    while i < list.len()
        invariant
            i <= list@.len(),
            all == list.deep_view(),
            start == old(result).deep_view(),
            result.deep_view() == with_items(start, all, i as nat),
        decreases list@.len() - i,
    {
        assert(all[i as int] == list@[i as int].deep_view());
        let ghost before = result.deep_view();
        if !has_item(result, &list[i]) {
            result.push(list[i].clone());
            assert(result.deep_view() =~= before.push(all[i as int]));
        }
        i += 1;
    }
}

fn unite(values: &Vec<Value>) -> (r: Vec<Value>)
    requires
        all_lists(values.deep_view()),
    ensures
        r.deep_view() == union_of(values.deep_view(), values.deep_view().len()),
{
    let ghost all = values.deep_view();
    let mut result: Vec<Value> = Vec::new();
    assert(result.deep_view() =~= Seq::empty());
    let mut i: usize = 0;
    while i < values.len()
        invariant
            i <= values@.len(),
            all == values.deep_view(),
            all_lists(all),
            result.deep_view() == union_of(all, i as nat),
        decreases values@.len() - i,
    {
        assert(all[i as int] == values@[i as int].deep_view());
        assert(all[i as int] is List);
        if let Value::List(list) = &values[i] {
            proof {
                lemma_items(values@[i as int]);
            }
            add_items(&mut result, list);
        }
        i += 1;
    }
    result
}

// The strategies.

/// How the values that subgraphs give to an argument become one value.
#[derive(Clone, Copy, Debug, PartialEq, Eq, Structural)]
pub enum ArgumentCompositionStrategy {
    Max,
    Min,
    Sum,
    Intersection,
    Union,
}

/// The name of a strategy.
pub open spec fn strategy_name(strategy: ArgumentCompositionStrategy) -> Text {
    match strategy {
        ArgumentCompositionStrategy::Max => "MAX"@,
        ArgumentCompositionStrategy::Min => "MIN"@,
        ArgumentCompositionStrategy::Sum => "SUM"@,
        ArgumentCompositionStrategy::Intersection => "INTERSECTION"@,
        ArgumentCompositionStrategy::Union => "UNION"@,
    }
}

/// Whether a strategy supports a type; if not, which types it does.
pub open spec fn supported(strategy: ArgumentCompositionStrategy, ty: TypeView) -> Result<(), Text> {
    match strategy {
        ArgumentCompositionStrategy::Max => one_of(seq![non_null_int()], ty),
        ArgumentCompositionStrategy::Min => one_of(seq![non_null_int()], ty),
        ArgumentCompositionStrategy::Sum => one_of(seq![non_null_int()], ty),
        ArgumentCompositionStrategy::Intersection => non_null_list(ty),
        ArgumentCompositionStrategy::Union => non_null_list(ty),
    }
}

/// Whether a strategy can make one value of some values of a type that it supports.
pub open spec fn mergeable(strategy: ArgumentCompositionStrategy, values: Seq<ValueView>) -> bool {
    match strategy {
        ArgumentCompositionStrategy::Max => all_ints(values),
        ArgumentCompositionStrategy::Min => all_ints(values),
        ArgumentCompositionStrategy::Sum => all_ints(values) && sums_fit(values),
        ArgumentCompositionStrategy::Intersection => all_lists(values) && values.len() > 0,
        ArgumentCompositionStrategy::Union => all_lists(values),
    }
}

/// The value that a strategy makes of some values.
pub open spec fn merged_value(strategy: ArgumentCompositionStrategy, values: Seq<ValueView>) -> ValueView {
    match strategy {
        ArgumentCompositionStrategy::Max => ValueView::Int(int_text(largest(values, values.len()))),
        ArgumentCompositionStrategy::Min => ValueView::Int(int_text(smallest(values, values.len()))),
        ArgumentCompositionStrategy::Sum => ValueView::Int(int_text(total(values, values.len()))),
        ArgumentCompositionStrategy::Intersection => ValueView::List(
            intersection(values, values.len()),
        ),
        ArgumentCompositionStrategy::Union => ValueView::List(union_of(values, values.len())),
    }
}

fn merge_max(values: &Vec<Value>) -> (r: i32)
    requires
        all_ints(values.deep_view()),
    ensures
        r == largest(values.deep_view(), values.deep_view().len()),
{
    let ghost all = values.deep_view();
    let mut best: i32 = 0;
    let mut i: usize = 0;
    while i < values.len()
        invariant
            i <= values@.len(),
            all == values.deep_view(),
            all_ints(all),
            best == largest(all, i as nat),
        decreases values@.len() - i,
    {
        assert(all[i as int] == values@[i as int].deep_view());
        let value: i32 = number_of(&values[i]);
        if i == 0 || value > best {
            best = value;
        }
        i += 1;
    }
    best
}

fn merge_min(values: &Vec<Value>) -> (r: i32)
    requires
        all_ints(values.deep_view()),
    ensures
        r == smallest(values.deep_view(), values.deep_view().len()),
{
    let ghost all = values.deep_view();
    let mut best: i32 = 0;
    let mut i: usize = 0;
    while i < values.len()
        invariant
            i <= values@.len(),
            all == values.deep_view(),
            all_ints(all),
            best == smallest(all, i as nat),
        decreases values@.len() - i,
    {
        assert(all[i as int] == values@[i as int].deep_view());
        let value: i32 = number_of(&values[i]);
        if i == 0 || value < best {
            best = value;
        }
        i += 1;
    }
    best
}

fn merge_sum(values: &Vec<Value>) -> (r: i32)
    requires
        all_ints(values.deep_view()),
        sums_fit(values.deep_view()),
    ensures
        r == total(values.deep_view(), values.deep_view().len()),
{
    let ghost all = values.deep_view();
    let mut sum: i32 = 0;
    let mut i: usize = 0;
    while i < values.len()
        invariant
            i <= values@.len(),
            all == values.deep_view(),
            all_ints(all),
            sums_fit(all),
            sum == total(all, i as nat),
        decreases values@.len() - i,
    {
        assert(all[i as int] == values@[i as int].deep_view());
        let value: i32 = number_of(&values[i]);
        assert(fits(total(all, (i + 1) as nat)));
        sum = sum + value;
        i += 1;
    }
    sum
}

impl ArgumentCompositionStrategy {
    /// The name of the strategy.
    pub fn name(&self) -> (r: &'static str)
        ensures
            r@ == strategy_name(*self),
    {
        match self {
            ArgumentCompositionStrategy::Max => "MAX",
            ArgumentCompositionStrategy::Min => "MIN",
            ArgumentCompositionStrategy::Sum => "SUM",
            ArgumentCompositionStrategy::Intersection => "INTERSECTION",
            ArgumentCompositionStrategy::Union => "UNION",
        }
    }

    /// Whether a type is supported; if not, which types are.
    pub fn is_type_supported(&self, schema: &Schema, ty: &Type) -> (r: Result<(), String>)
        ensures
            supported_view(r) == supported(*self, ty.deep_view()),
    {
        match self {
            ArgumentCompositionStrategy::Max
            | ArgumentCompositionStrategy::Min
            | ArgumentCompositionStrategy::Sum => {
                FixedTypeSupportValidator::for_int().is_type_supported(schema, ty)
            },
            ArgumentCompositionStrategy::Intersection
            | ArgumentCompositionStrategy::Union => support_any_non_null_array(ty),
        }
    }

    /// The value that the strategy makes of some values of a type that it supports.
    pub fn merge_values(&self, values: &Vec<Value>) -> (r: Value)
        requires
            mergeable(*self, values.deep_view()),
        ensures
            r.deep_view() == merged_value(*self, values.deep_view()),
    {
        match self {
            ArgumentCompositionStrategy::Max => int_of(merge_max(values)),
            ArgumentCompositionStrategy::Min => int_of(merge_min(values)),
            ArgumentCompositionStrategy::Sum => int_of(merge_sum(values)),
            ArgumentCompositionStrategy::Intersection => list_of(intersect(values)),
            ArgumentCompositionStrategy::Union => list_of(unite(values)),
        }
    }
}

// What holds of the strategies.

proof fn lemma_largest(values: Seq<ValueView>, n: nat)
    requires
        1 <= n <= values.len(),
    ensures
        forall|i: int| 0 <= i < n ==> number(#[trigger] values[i]) <= largest(values, n),
        exists|i: int| 0 <= i < n && number(#[trigger] values[i]) == largest(values, n),
    decreases n,
{
    if n == 1 {
        assert(number(values[0]) == largest(values, 1));
    } else {
        lemma_largest(values, (n - 1) as nat);
        let before = largest(values, (n - 1) as nat);
        if number(values[n - 1]) > before {
            assert(number(values[n - 1]) == largest(values, n));
        } else {
            let i = choose|i: int| 0 <= i < n - 1 && number(#[trigger] values[i]) == before;
            assert(number(values[i]) == largest(values, n));
        }
    }
}

proof fn lemma_smallest(values: Seq<ValueView>, n: nat)
    requires
        1 <= n <= values.len(),
    ensures
        forall|i: int| 0 <= i < n ==> number(#[trigger] values[i]) >= smallest(values, n),
        exists|i: int| 0 <= i < n && number(#[trigger] values[i]) == smallest(values, n),
    decreases n,
{
    if n == 1 {
        assert(number(values[0]) == smallest(values, 1));
    } else {
        lemma_smallest(values, (n - 1) as nat);
        let before = smallest(values, (n - 1) as nat);
        if number(values[n - 1]) < before {
            assert(number(values[n - 1]) == smallest(values, n));
        } else {
            let i = choose|i: int| 0 <= i < n - 1 && number(#[trigger] values[i]) == before;
            assert(number(values[i]) == smallest(values, n));
        }
    }
}

/// The largest number of some is one of them, and none is larger; likewise the smallest.
pub proof fn law_extremes_are_among_the_values(values: Seq<ValueView>)
    requires
        values.len() > 0,
    ensures
        forall|i: int|
            0 <= i < values.len() ==> smallest(values, values.len()) <= number(
                #[trigger] values[i],
            ) <= largest(values, values.len()),
        exists|i: int|
            0 <= i < values.len() && number(#[trigger] values[i]) == largest(values, values.len()),
        exists|i: int|
            0 <= i < values.len() && number(#[trigger] values[i]) == smallest(values, values.len()),
{
    lemma_largest(values, values.len());
    lemma_smallest(values, values.len());
}

proof fn lemma_items_in(items: Seq<ValueView>, list: Seq<ValueView>, n: nat, item: ValueView)
    requires
        n <= items.len(),
    ensures
        items_in(items, list, n).contains(item) == (items.take(n as int).contains(item)
            && list.contains(item)),
    decreases n,
{
    if n > 0 {
        lemma_items_in(items, list, (n - 1) as nat, item);
        let before = items_in(items, list, (n - 1) as nat);
        let last = items[n - 1];
        assert(items.take(n as int) =~= items.take(n - 1).push(last));
        lemma_push_contains(items.take(n - 1), last, item);
        lemma_push_contains(before, last, item);
    }
}

proof fn lemma_push_contains(s: Seq<ValueView>, last: ValueView, item: ValueView)
    ensures
        s.push(last).contains(item) == (s.contains(item) || last == item),
{
    if s.contains(item) {
        let i = choose|i: int| 0 <= i < s.len() && s[i] == item;
        assert(s.push(last)[i] == item);
    }
    if last == item {
        assert(s.push(last)[s.len() as int] == item);
    }
    if s.push(last).contains(item) {
        let i = choose|i: int| 0 <= i < s.len() + 1 && s.push(last)[i] == item;
        if i < s.len() {
            assert(s[i] == item);
        }
    }
}

/// An item is in the intersection of some lists if and only if it is in all of them.
pub proof fn law_intersection_is_in_all(values: Seq<ValueView>, n: nat, item: ValueView)
    requires
        1 <= n <= values.len(),
    ensures
        intersection(values, n).contains(item) <==> (forall|i: int|
            0 <= i < n ==> items_of(#[trigger] values[i]).contains(item)),
    decreases n,
{
    if n > 1 {
        law_intersection_is_in_all(values, (n - 1) as nat, item);
        let before = intersection(values, (n - 1) as nat);
        lemma_items_in(before, items_of(values[n - 1]), before.len(), item);
        assert(before.take(before.len() as int) =~= before);
        if intersection(values, n).contains(item) {
            assert forall|i: int| 0 <= i < n implies items_of(#[trigger] values[i]).contains(
                item,
            ) by {}
        }
    } else {
        if items_of(values[0]).contains(item) {
            assert forall|i: int| 0 <= i < n implies items_of(#[trigger] values[i]).contains(
                item,
            ) by {
                assert(i == 0);
            }
        }
    }
}

proof fn lemma_with_items(items: Seq<ValueView>, list: Seq<ValueView>, n: nat, item: ValueView)
    requires
        n <= list.len(),
    ensures
        with_items(items, list, n).contains(item) == (items.contains(item) || list.take(
            n as int,
        ).contains(item)),
    decreases n,
{
    if n > 0 {
        lemma_with_items(items, list, (n - 1) as nat, item);
        let before = with_items(items, list, (n - 1) as nat);
        let last = list[n - 1];
        assert(list.take(n as int) =~= list.take(n - 1).push(last));
        lemma_push_contains(list.take(n - 1), last, item);
        lemma_push_contains(before, last, item);
    }
}

proof fn lemma_with_items_distinct(items: Seq<ValueView>, list: Seq<ValueView>, n: nat)
    requires
        n <= list.len(),
        items.no_duplicates(),
    ensures
        with_items(items, list, n).no_duplicates(),
    decreases n,
{
    if n > 0 {
        lemma_with_items_distinct(items, list, (n - 1) as nat);
    }
}

/// An item is in the union of some lists if and only if it is in one of them, and it is there once.
pub proof fn law_union_is_in_one(values: Seq<ValueView>, n: nat, item: ValueView)
    requires
        n <= values.len(),
    ensures
        union_of(values, n).contains(item) <==> (exists|i: int|
            0 <= i < n && items_of(#[trigger] values[i]).contains(item)),
        union_of(values, n).no_duplicates(),
    decreases n,
{
    if n > 0 {
        law_union_is_in_one(values, (n - 1) as nat, item);
        let before = union_of(values, (n - 1) as nat);
        let list = items_of(values[n - 1]);
        lemma_with_items(before, list, list.len(), item);
        lemma_with_items_distinct(before, list, list.len());
        assert(list.take(list.len() as int) =~= list);
        if list.contains(item) {
            assert(items_of(values[n - 1]).contains(item));
        }
    }
}

proof fn lemma_same_values(values: Seq<ValueView>, other: Seq<ValueView>)
    requires
        values.to_multiset() == other.to_multiset(),
    ensures
        values.len() == other.len(),
        forall|i: int| 0 <= i < values.len() ==> other.contains(#[trigger] values[i]),
{
    values.to_multiset_ensures();
    other.to_multiset_ensures();
    assert forall|i: int| 0 <= i < values.len() implies other.contains(#[trigger] values[i]) by {
        assert(values.contains(values[i]));
        assert(values.to_multiset().count(values[i]) > 0);
    }
}

proof fn lemma_extremes_bound(values: Seq<ValueView>, other: Seq<ValueView>)
    requires
        values.to_multiset() == other.to_multiset(),
        values.len() > 0,
    ensures
        largest(values, values.len()) <= largest(other, other.len()),
        smallest(values, values.len()) >= smallest(other, other.len()),
{
    lemma_same_values(values, other);
    law_extremes_are_among_the_values(values);
    law_extremes_are_among_the_values(other);
    let i = choose|i: int|
        0 <= i < values.len() && number(#[trigger] values[i]) == largest(values, values.len());
    assert(other.contains(values[i]));
    let k = choose|k: int|
        0 <= k < values.len() && number(#[trigger] values[k]) == smallest(values, values.len());
    assert(other.contains(values[k]));
}

proof fn lemma_total_without(values: Seq<ValueView>, i: int, n: nat)
    requires
        0 <= i < n <= values.len(),
    ensures
        total(values, n) == total(values.remove(i), (n - 1) as nat) + number(values[i]),
    decreases n,
{
    let rest = values.remove(i);
    if i < n - 1 {
        lemma_total_without(values, i, (n - 1) as nat);
        assert(rest[n - 2] == values[n - 1]);
    } else {
        lemma_total_of_prefix(values, rest, i as nat);
    }
}

proof fn lemma_total_of_prefix(a: Seq<ValueView>, b: Seq<ValueView>, n: nat)
    requires
        n <= a.len(),
        n <= b.len(),
        forall|i: int| 0 <= i < n ==> #[trigger] a[i] == b[i],
    ensures
        total(a, n) == total(b, n),
    decreases n,
{
    if n > 0 {
        lemma_total_of_prefix(a, b, (n - 1) as nat);
        assert(a[n - 1] == b[n - 1]);
    }
}

proof fn lemma_same_total(values: Seq<ValueView>, other: Seq<ValueView>)
    requires
        values.to_multiset() == other.to_multiset(),
    ensures
        total(values, values.len()) == total(other, other.len()),
    decreases values.len(),
{
    lemma_same_values(values, other);
    if values.len() > 0 {
        let last = values.len() - 1;
        assert(other.contains(values[last]));
        let i = other.index_of(values[last]);
        values.to_multiset_ensures();
        other.to_multiset_ensures();
        assert(values.remove(last).to_multiset() == other.remove(i).to_multiset());
        lemma_same_total(values.remove(last), other.remove(i));
        lemma_total_without(values, last, values.len());
        lemma_total_without(other, i, other.len());
    }
}

proof fn lemma_same_items(
    values: Seq<ValueView>,
    other: Seq<ValueView>,
    item: ValueView,
)
    requires
        values.to_multiset() == other.to_multiset(),
    ensures
        union_of(values, values.len()).contains(item) ==> union_of(other, other.len()).contains(item),
        values.len() > 0 && intersection(values, values.len()).contains(item) ==> intersection(
            other,
            other.len(),
        ).contains(item),
{
    lemma_same_values(values, other);
    lemma_same_values(other, values);
    law_union_is_in_one(values, values.len(), item);
    law_union_is_in_one(other, other.len(), item);
    if union_of(values, values.len()).contains(item) {
        let i = choose|i: int|
            0 <= i < values.len() && items_of(#[trigger] values[i]).contains(item);
        assert(other.contains(values[i]));
        let j = other.index_of(values[i]);
        assert(items_of(other[j]).contains(item));
    }
    if values.len() > 0 {
        law_intersection_is_in_all(values, values.len(), item);
        law_intersection_is_in_all(other, other.len(), item);
        if intersection(values, values.len()).contains(item) {
            assert forall|j: int| 0 <= j < other.len() implies items_of(
                #[trigger] other[j],
            ).contains(item) by {
                assert(values.contains(other[j]));
                let i = values.index_of(other[j]);
                assert(items_of(values[i]).contains(item));
            }
        }
    }
}

/// The order of the values does not matter. The largest, the smallest and the sum of some numbers are
/// the same in every order, where no sum of the first numbers is too large in either. The items that
/// are in all lists, and those that are in one of them, are the same in every order of the lists.
pub proof fn law_order_of_values_does_not_matter(
    strategy: ArgumentCompositionStrategy,
    values: Seq<ValueView>,
    other: Seq<ValueView>,
)
    requires
        values.to_multiset() == other.to_multiset(),
        mergeable(strategy, values),
        strategy is Sum ==> sums_fit(other),
    ensures
        mergeable(strategy, other),
        match strategy {
            ArgumentCompositionStrategy::Intersection | ArgumentCompositionStrategy::Union => {
                forall|item: ValueView|
                    #![trigger items_of(merged_value(strategy, values)).contains(item)]
                    #![trigger items_of(merged_value(strategy, other)).contains(item)]
                    items_of(merged_value(strategy, values)).contains(item) <==> items_of(
                        merged_value(strategy, other),
                    ).contains(item)
            },
            _ => merged_value(strategy, values) == merged_value(strategy, other),
        },
{
    lemma_same_values(values, other);
    lemma_same_values(other, values);
    assert forall|j: int| 0 <= j < other.len() implies (all_ints(values) ==> is_int(
        #[trigger] other[j],
    )) && (all_lists(values) ==> other[j] is List) by {
        assert(values.contains(other[j]));
    }
    if values.len() > 0 {
        lemma_extremes_bound(values, other);
        lemma_extremes_bound(other, values);
    }
    lemma_same_total(values, other);
    assert forall|item: ValueView|
        union_of(values, values.len()).contains(item) == union_of(other, other.len()).contains(
            item,
        ) && (values.len() > 0 ==> intersection(values, values.len()).contains(item)
            == intersection(other, other.len()).contains(item)) by {
        lemma_same_items(values, other, item);
        lemma_same_items(other, values, item);
    }
}

} // verus!
