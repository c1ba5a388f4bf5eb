//! Values carried by inputs and outputs, their text form, their order and
//! the actions that can be requested on an output.

use vstd::prelude::*;

use crate::text::{
    all_digits, append_str, chars_of, i32_to_decimal, int_to_decimal, is_digit,
    lemma_nat_to_decimal_digits, nat_to_decimal, parse_i32, parse_i32_spec, str_eq, string_of,
};

verus! {

/// Position of a shutter (roller blind).
#[derive(Debug, Clone, Copy, PartialEq, Eq, Structural)]
pub enum ShutterState {
    Up,
    Down,
    MovingUp,
    MovingDown,
}

/// A value of an input or an output.
#[derive(Debug, PartialEq)]
pub enum IOValue {
    Bool(bool),
    Int(i32),
    String(String),
    Shutter(ShutterState),
}

/// The mathematical model of an `IOValue`: text is a sequence of characters.
pub enum IOValueView {
    Bool(bool),
    Int(i32),
    Str(Seq<char>),
    Shutter(ShutterState),
}

impl View for IOValue {
    type V = IOValueView;

    open spec fn view(&self) -> IOValueView {
        match self {
            IOValue::Bool(b) => IOValueView::Bool(*b),
            IOValue::Int(i) => IOValueView::Int(*i),
            IOValue::String(s) => IOValueView::Str(s@),
            IOValue::Shutter(st) => IOValueView::Shutter(*st),
        }
    }
}

impl Clone for IOValue {
    fn clone(&self) -> (r: Self)
        ensures
            r == *self,
    {
        match self {
            IOValue::Bool(b) => IOValue::Bool(*b),
            IOValue::Int(i) => IOValue::Int(*i),
            IOValue::String(s) => IOValue::String(s.clone()),
            IOValue::Shutter(st) => IOValue::Shutter(*st),
        }
    }
}

/// What can be asked of an output.
#[derive(Debug, PartialEq)]
pub enum IOAction {
    SetValue(IOValue),
    Toggle,
    Stop,
}

pub enum IOActionView {
    SetValue(IOValueView),
    Toggle,
    Stop,
}

impl View for IOAction {
    type V = IOActionView;

    open spec fn view(&self) -> IOActionView {
        match self {
            IOAction::SetValue(v) => IOActionView::SetValue(v@),
            IOAction::Toggle => IOActionView::Toggle,
            IOAction::Stop => IOActionView::Stop,
        }
    }
}

impl Clone for IOAction {
    fn clone(&self) -> (r: Self)
        ensures
            r == *self,
    {
        match self {
            IOAction::SetValue(v) => IOAction::SetValue(v.clone()),
            IOAction::Toggle => IOAction::Toggle,
            IOAction::Stop => IOAction::Stop,
        }
    }
}

/// The text of a shutter state.
pub open spec fn shutter_text(st: ShutterState) -> Seq<char> {
    match st {
        ShutterState::Up => "up"@,
        ShutterState::Down => "down"@,
        ShutterState::MovingUp => "moving_up"@,
        ShutterState::MovingDown => "moving_down"@,
    }
}

/// The text form of a value (`String::from(IOValue)`).
pub open spec fn value_text(v: IOValueView) -> Seq<char> {
    match v {
        IOValueView::Bool(b) => if b {
            "true"@
        } else {
            "false"@
        },
        IOValueView::Int(i) => int_to_decimal(i as int),
        IOValueView::Str(s) => s,
        IOValueView::Shutter(st) => shutter_text(st),
    }
}

/// The value that a text denotes (`IOValue::from(&str)`): an integer if it
/// parses as an `i32`, else a boolean for "true" and "false", a shutter up
/// or down for "up" and "down", else the text itself.
pub open spec fn parse_value(s: Seq<char>) -> IOValueView {
    match parse_i32_spec(s) {
        Some(i) => IOValueView::Int(i),
        None => {
            if s == "false"@ {
                IOValueView::Bool(false)
            } else if s == "true"@ {
                IOValueView::Bool(true)
            } else if s == "up"@ {
                IOValueView::Shutter(ShutterState::Up)
            } else if s == "down"@ {
                IOValueView::Shutter(ShutterState::Down)
            } else {
                IOValueView::Str(s)
            }
        },
    }
}

/// Whether a text stands for itself when parsed (it is no number and no keyword).
pub open spec fn is_plain_text(s: Seq<char>) -> bool {
    parse_value(s) == IOValueView::Str(s)
}

/// The value that toggling gives: a boolean is negated, a shutter at rest
/// goes the other way; other values cannot be toggled.
pub open spec fn toggled(v: IOValueView) -> Option<IOValueView> {
    match v {
        IOValueView::Bool(b) => Some(IOValueView::Bool(!b)),
        IOValueView::Shutter(ShutterState::Up) => Some(IOValueView::Shutter(ShutterState::Down)),
        IOValueView::Shutter(ShutterState::Down) => Some(IOValueView::Shutter(ShutterState::Up)),
        _ => None,
    }
}

fn chars_are(cs: &Vec<char>, lit: &str) -> (r: bool)
    ensures
        r == (cs@ == lit@),
{
    let ls = chars_of(lit);
    if cs.len() != ls.len() {
        return false;
    }
    let mut i: usize = 0;
    while i < cs.len()
        invariant
            ls@ == lit@,
            cs@.len() == ls@.len(),
            i <= cs@.len(),
            forall|j: int| 0 <= j < i ==> cs@[j] == ls@[j],
        decreases cs@.len() - i,
    {
        if cs[i] != ls[i] {
            return false;
        }
        i = i + 1;
    }
    assert(cs@ =~= ls@);
    true
}

impl ShutterState {
    /// The text of the state (its `Display` form).
    pub fn to_text(&self) -> (r: String)
        ensures
            r@ == shutter_text(*self),
    {
        let s = match self {
            ShutterState::Up => "up",
            ShutterState::Down => "down",
            ShutterState::MovingUp => "moving_up",
            ShutterState::MovingDown => "moving_down",
        };
        let mut r = String::new();
        append_str(&mut r, s);
        assert(r@ =~= shutter_text(*self));
        r
    }
}

impl IOValue {
    /// Reads a value from its text form.
    pub fn parse(s: &str) -> (r: IOValue)
        ensures
            r@ == parse_value(s@),
    {
        let cs = chars_of(s);
        if let Some(i) = parse_i32(cs.as_slice()) {
            return IOValue::Int(i);
        }
        if chars_are(&cs, "false") {
            IOValue::Bool(false)
        } else if chars_are(&cs, "true") {
            IOValue::Bool(true)
        } else if chars_are(&cs, "up") {
            IOValue::Shutter(ShutterState::Up)
        } else if chars_are(&cs, "down") {
            IOValue::Shutter(ShutterState::Down)
        } else {
            IOValue::String(string_of(cs.as_slice()))
        }
    }

    /// The text form of the value.
    pub fn to_text(&self) -> (r: String)
        ensures
            r@ == value_text(self@),
    {
        match self {
            IOValue::Bool(b) => {
                let mut r = String::new();
                if *b {
                    append_str(&mut r, "true");
                } else {
                    append_str(&mut r, "false");
                }
                assert(r@ =~= value_text(self@));
                r
            },
            IOValue::Int(i) => i32_to_decimal(*i),
            IOValue::String(s) => s.clone(),
            IOValue::Shutter(st) => st.to_text(),
        }
    }

    /// Whether two values are the same.
    pub fn same_as(&self, other: &IOValue) -> (r: bool)
        ensures
            r == (self@ == other@),
    {
        match (self, other) {
            (IOValue::Bool(a), IOValue::Bool(b)) => *a == *b,
            (IOValue::Int(a), IOValue::Int(b)) => *a == *b,
            (IOValue::String(a), IOValue::String(b)) => str_eq(a.as_str(), b.as_str()),
            (IOValue::Shutter(a), IOValue::Shutter(b)) => *a == *b,
            _ => false,
        }
    }
}

/// The value that toggling `value` gives, if it can be toggled.
pub fn toggle(value: &IOValue) -> (r: Option<IOValue>)
    ensures
        match r {
            Some(v) => toggled(value@) == Some(v@),
            None => toggled(value@) is None,
        },
{
    match value {
        IOValue::Bool(b) => Some(IOValue::Bool(!*b)),
        IOValue::Shutter(ShutterState::Up) => Some(IOValue::Shutter(ShutterState::Down)),
        IOValue::Shutter(ShutterState::Down) => Some(IOValue::Shutter(ShutterState::Up)),
        _ => None,
    }
}

impl<'a> From<&'a str> for IOValue {
    fn from(value: &'a str) -> (r: IOValue)
        ensures
            r@ == parse_value(value@),
    {
        IOValue::parse(value)
    }
}

impl<'a> vstd::std_specs::convert::FromSpecImpl<&'a str> for IOValue {
    open spec fn obeys_from_spec() -> bool {
        false
    }

    open spec fn from_spec(v: &'a str) -> IOValue {
        IOValue::Bool(false)
    }
}

impl From<String> for IOValue {
    fn from(value: String) -> (r: IOValue)
        ensures
            r@ == parse_value(value@),
    {
        IOValue::parse(value.as_str())
    }
}

impl vstd::std_specs::convert::FromSpecImpl<String> for IOValue {
    open spec fn obeys_from_spec() -> bool {
        false
    }

    open spec fn from_spec(v: String) -> IOValue {
        IOValue::Bool(false)
    }
}

impl From<IOValue> for String {
    fn from(value: IOValue) -> (r: String)
        ensures
            r@ == value_text(value@),
    {
        value.to_text()
    }
}

impl vstd::std_specs::convert::FromSpecImpl<IOValue> for String {
    open spec fn obeys_from_spec() -> bool {
        false
    }

    open spec fn from_spec(v: IOValue) -> String {
        arbitrary()
    }
}

impl<'a> From<&'a IOValue> for String {
    fn from(value: &'a IOValue) -> (r: String)
        ensures
            r@ == value_text(value@),
    {
        value.to_text()
    }
}

impl<'a> vstd::std_specs::convert::FromSpecImpl<&'a IOValue> for String {
    open spec fn obeys_from_spec() -> bool {
        false
    }

    open spec fn from_spec(v: &'a IOValue) -> String {
        arbitrary()
    }
}

/// The outcome of comparing two values.
#[derive(Debug, Clone, Copy, PartialEq, Eq, Structural)]
pub enum ValueOrder {
    Less,
    Equal,
    Greater,
}

pub open spec fn reversed(o: ValueOrder) -> ValueOrder {
    match o {
        ValueOrder::Less => ValueOrder::Greater,
        ValueOrder::Equal => ValueOrder::Equal,
        ValueOrder::Greater => ValueOrder::Less,
    }
}

pub open spec fn int_order(a: int, b: int) -> ValueOrder {
    if a < b {
        ValueOrder::Less
    } else if a == b {
        ValueOrder::Equal
    } else {
        ValueOrder::Greater
    }
}

/// Lexicographic order of texts, character by character (the order of
/// `String`, as UTF-8 keeps the order of code points).
pub open spec fn text_order(a: Seq<char>, b: Seq<char>) -> ValueOrder
    decreases a.len(),
{
    if a.len() == 0 {
        if b.len() == 0 {
            ValueOrder::Equal
        } else {
            ValueOrder::Less
        }
    } else if b.len() == 0 {
        ValueOrder::Greater
    } else if a[0] < b[0] {
        ValueOrder::Less
    } else if a[0] > b[0] {
        ValueOrder::Greater
    } else {
        text_order(a.skip(1), b.skip(1))
    }
}

pub open spec fn shutter_rank(s: ShutterState) -> int {
    match s {
        ShutterState::Up => 0,
        ShutterState::Down => 1,
        ShutterState::MovingUp => 2,
        ShutterState::MovingDown => 3,
    }
}

pub open spec fn variant_rank(v: IOValueView) -> int {
    match v {
        IOValueView::Bool(_) => 0,
        IOValueView::Int(_) => 1,
        IOValueView::Str(_) => 2,
        IOValueView::Shutter(_) => 3,
    }
}

/// The order of values: first by kind (boolean, integer, text, shutter, in
/// that order), then by content (false before true; integers by value;
/// texts lexicographically; shutter states in declaration order).
pub open spec fn value_order(a: IOValueView, b: IOValueView) -> ValueOrder {
    match (a, b) {
        (IOValueView::Bool(x), IOValueView::Bool(y)) => int_order(
            if x { 1 } else { 0 },
            if y { 1 } else { 0 },
        ),
        (IOValueView::Int(x), IOValueView::Int(y)) => int_order(x as int, y as int),
        (IOValueView::Str(x), IOValueView::Str(y)) => text_order(x, y),
        (IOValueView::Shutter(x), IOValueView::Shutter(y)) => int_order(
            shutter_rank(x),
            shutter_rank(y),
        ),
        _ => int_order(variant_rank(a), variant_rank(b)),
    }
}

proof fn lemma_text_order_skip(a: Seq<char>, b: Seq<char>, i: int)
    requires
        0 <= i < a.len(),
        i < b.len(),
        a[i] == b[i],
    ensures
        text_order(a.skip(i), b.skip(i)) == text_order(a.skip(i + 1), b.skip(i + 1)),
{
    assert(a.skip(i).skip(1) =~= a.skip(i + 1));
    assert(b.skip(i).skip(1) =~= b.skip(i + 1));
}

fn compare_texts(a: &String, b: &String) -> (r: ValueOrder)
    ensures
        r == text_order(a@, b@),
{
    let x = chars_of(a.as_str());
    let y = chars_of(b.as_str());
    proof {
        assert(x@.skip(0) =~= x@);
        assert(y@.skip(0) =~= y@);
    }
    let mut i: usize = 0;
    while i < x.len() && i < y.len()
        invariant
            x@ == a@,
            y@ == b@,
            i <= x@.len(),
            i <= y@.len(),
            text_order(a@, b@) == text_order(x@.skip(i as int), y@.skip(i as int)),
        decreases x@.len() - i,
    {
        let c = x[i];
        let d = y[i];
        if c < d {
            return ValueOrder::Less;
        }
        if c > d {
            return ValueOrder::Greater;
        }
        proof {
            assert(x@[i as int] == y@[i as int]);
            lemma_text_order_skip(x@, y@, i as int);
        }
        i = i + 1;
    }
    if i < x.len() {
        ValueOrder::Greater
    } else if i < y.len() {
        ValueOrder::Less
    } else {
        ValueOrder::Equal
    }
}

fn order_of_ints(a: i64, b: i64) -> (r: ValueOrder)
    ensures
        r == int_order(a as int, b as int),
{
    if a < b {
        ValueOrder::Less
    } else if a == b {
        ValueOrder::Equal
    } else {
        ValueOrder::Greater
    }
}

fn shutter_rank_of(s: ShutterState) -> (r: i64)
    ensures
        r == shutter_rank(s),
{
    match s {
        ShutterState::Up => 0,
        ShutterState::Down => 1,
        ShutterState::MovingUp => 2,
        ShutterState::MovingDown => 3,
    }
}

fn variant_rank_of(v: &IOValue) -> (r: i64)
    ensures
        r == variant_rank(v@),
{
    match v {
        IOValue::Bool(_) => 0,
        IOValue::Int(_) => 1,
        IOValue::String(_) => 2,
        IOValue::Shutter(_) => 3,
    }
}

/// Compares two values.
pub fn compare_values(a: &IOValue, b: &IOValue) -> (r: ValueOrder)
    ensures
        r == value_order(a@, b@),
{
    match (a, b) {
        (IOValue::Bool(x), IOValue::Bool(y)) => order_of_ints(
            if *x { 1 } else { 0 },
            if *y { 1 } else { 0 },
        ),
        (IOValue::Int(x), IOValue::Int(y)) => order_of_ints(*x as i64, *y as i64),
        (IOValue::String(x), IOValue::String(y)) => compare_texts(x, y),
        (IOValue::Shutter(x), IOValue::Shutter(y)) => order_of_ints(
            shutter_rank_of(*x),
            shutter_rank_of(*y),
        ),
        _ => order_of_ints(variant_rank_of(a), variant_rank_of(b)),
    }
}

proof fn lemma_text_order_laws(a: Seq<char>, b: Seq<char>)
    ensures
        text_order(b, a) == reversed(text_order(a, b)),
        (text_order(a, b) == ValueOrder::Equal) == (a == b),
    decreases a.len(),
{
    if a.len() > 0 && b.len() > 0 {
        lemma_text_order_laws(a.skip(1), b.skip(1));
        if a[0] == b[0] && a.skip(1) == b.skip(1) {
            assert(a =~= seq![a[0]] + a.skip(1));
            assert(b =~= seq![b[0]] + b.skip(1));
        }
        if a == b {
            assert(a.skip(1) == b.skip(1));
        }
    } else if a.len() == 0 && b.len() == 0 {
        assert(a =~= b);
    }
}

/// The order of values is antisymmetric, and two values compare equal
/// exactly when they are the same value.
pub proof fn lemma_value_order_laws(a: IOValueView, b: IOValueView)
    ensures
        value_order(b, a) == reversed(value_order(a, b)),
        (value_order(a, b) == ValueOrder::Equal) == (a == b),
{
    match (a, b) {
        (IOValueView::Str(x), IOValueView::Str(y)) => lemma_text_order_laws(x, y),
        (IOValueView::Shutter(x), IOValueView::Shutter(y)) => {},
        _ => {},
    }
}

proof fn lemma_int_text_parses(i: i32)
    ensures
        parse_i32_spec(int_to_decimal(i as int)) == Some(i),
{
    if i < 0 {
        let n = (-(i as int)) as nat;
        lemma_nat_to_decimal_digits(n);
        let s = int_to_decimal(i as int);
        assert(s[0] == '-');
        assert(s.skip(1) =~= nat_to_decimal(n));
    } else {
        lemma_nat_to_decimal_digits(i as nat);
        let s = int_to_decimal(i as int);
        assert(is_digit(s[0]));
    }
}

proof fn lemma_keywords()
    ensures
        parse_i32_spec("true"@) is None,
        parse_i32_spec("false"@) is None,
        parse_i32_spec("up"@) is None,
        parse_i32_spec("down"@) is None,
        parse_i32_spec("moving_up"@) is None,
        parse_i32_spec("moving_down"@) is None,
        "true"@ != "false"@,
        "up"@ != "false"@ && "up"@ != "true"@,
        "down"@ != "false"@ && "down"@ != "true"@ && "down"@ != "up"@,
        "moving_up"@ != "false"@ && "moving_up"@ != "true"@ && "moving_up"@ != "up"@
            && "moving_up"@ != "down"@,
        "moving_down"@ != "false"@ && "moving_down"@ != "true"@ && "moving_down"@ != "up"@
            && "moving_down"@ != "down"@ && "moving_down"@ != "moving_up"@,
{
    reveal_strlit("true");
    reveal_strlit("false");
    reveal_strlit("up");
    reveal_strlit("down");
    reveal_strlit("moving_up");
    reveal_strlit("moving_down");
    assert(!is_digit("true"@[0]));
    assert(!is_digit("false"@[0]));
    assert(!is_digit("up"@[0]));
    assert(!is_digit("down"@[0]));
    assert(!is_digit("moving_up"@[0]));
    assert(!is_digit("moving_down"@[0]));
    assert("true"@.len() != "false"@.len());
    assert("up"@.len() != "false"@.len() && "up"@.len() != "true"@.len());
    assert("down"@[0] != "false"@[0] && "down"@[0] != "true"@[0] && "down"@[0] != "up"@[0]);
    assert("moving_up"@.len() != "false"@.len() && "moving_up"@.len() != "true"@.len());
    assert("moving_up"@.len() != "up"@.len() && "moving_up"@.len() != "down"@.len());
    assert("moving_down"@.len() != "false"@.len() && "moving_down"@.len() != "true"@.len());
    assert("moving_down"@.len() != "up"@.len() && "moving_down"@.len() != "down"@.len());
    assert("moving_down"@.len() != "moving_up"@.len());
}

/// Writing a value out as text and reading the text back gives the value
/// again, for every value but a text that itself reads as a number or a
/// keyword, and a moving shutter (whose text reads back as text).
pub proof fn lemma_value_text_round_trip(v: IOValueView)
    requires
        v matches IOValueView::Str(s) ==> is_plain_text(s),
        v != IOValueView::Shutter(ShutterState::MovingUp),
        v != IOValueView::Shutter(ShutterState::MovingDown),
    ensures
        parse_value(value_text(v)) == v,
{
    lemma_keywords();
    match v {
        IOValueView::Int(i) => lemma_int_text_parses(i),
        _ => {},
    }
}

/// Reading a text as a value and writing the value out gives the text back,
/// unless the text is a number in a form other than the canonical one
/// (such as "+5" or "007").
pub proof fn lemma_text_value_round_trip(s: Seq<char>)
    requires
        parse_i32_spec(s) matches Some(i) ==> s == int_to_decimal(i as int),
    ensures
        value_text(parse_value(s)) == s,
{
    lemma_keywords();
}

/// Toggling a value twice gives it back: an on/off value, or a shutter that
/// is up or down.
pub proof fn lemma_toggle_twice(v: IOValueView)
    requires
        toggled(v) is Some,
    ensures
        toggled(toggled(v)->0) == Some(v),
{
}

/// Integers compare by their numeric value: `Int(x)` is below `Int(y)`
/// exactly when `x < y`, equal exactly when `x == y`, above exactly when
/// `x > y`. So the order keeps the order of the integers: if `x <= y` then
/// `Int(x)` is not above `Int(y)`.
pub proof fn lemma_int_values_ordered(x: i32, y: i32)
    ensures
        (value_order(IOValueView::Int(x), IOValueView::Int(y)) == ValueOrder::Less) <==> x < y,
        (value_order(IOValueView::Int(x), IOValueView::Int(y)) == ValueOrder::Equal) <==> x == y,
        (value_order(IOValueView::Int(x), IOValueView::Int(y)) == ValueOrder::Greater) <==> x > y,
{
}

/// Booleans compare with `false` below `true`.
pub proof fn lemma_bool_values_ordered()
    ensures
        value_order(IOValueView::Bool(false), IOValueView::Bool(true)) == ValueOrder::Less,
        value_order(IOValueView::Bool(true), IOValueView::Bool(false)) == ValueOrder::Greater,
{
}

} // verus!
