//! The tree that a document is read into.

use crate::token::{LiteralType, LiteralView};
use vstd::prelude::*;
use vstd::std_specs::cmp::PartialEqSpecImpl;
use vstd::std_specs::convert::{FromSpec, FromSpecImpl};

verus! {

/// A node of a document.
#[derive(Debug)]
pub enum Value {
    Object(Object),
    String(String),
    /// A whole number. The scanner reads no other numbers.
    Number(isize),
    Bool(bool),
    Array(Array),
    Null,
}

/// A key and the value that stands under it in an object.
#[derive(Debug)]
pub struct Member {
    pub key: String,
    pub value: Value,
}

/// The members of an object, in the order in which they were written. A key
/// may occur more than once.
#[derive(Debug)]
pub struct Members(pub Vec<Member>);

/// An object. `None` is the object without members, written `{}`.
#[derive(Debug)]
pub struct Object(pub Option<Members>);

/// The elements of an array, in the order in which they were written.
#[derive(Debug)]
pub struct Elements(pub Vec<Element>);

/// One element of an array.
#[derive(Debug)]
pub struct Element(pub Value);

/// An array. `None` is the array without elements, written `[]`.
#[derive(Debug)]
pub struct Array(pub Option<Elements>);

/// What a [`Value`] stands for in specifications.
pub ghost enum ValueView {
    Object(Option<Seq<MemberView>>),
    String(Seq<char>),
    Number(int),
    Bool(bool),
    Array(Option<Seq<ValueView>>),
    Null,
}

/// What a [`Member`] stands for in specifications.
pub ghost struct MemberView {
    pub key: Seq<char>,
    pub value: ValueView,
}

/// The view of a value: strings as sequences of characters, and the members
/// and elements of objects and arrays as sequences of views.
pub open spec fn value_view(v: Value) -> ValueView
    decreases v,
{
    match v {
        Value::Object(Object(None)) => ValueView::Object(None),
        Value::Object(Object(Some(Members(members)))) => ValueView::Object(
            Some(members_view(members@)),
        ),
        Value::String(s) => ValueView::String(s@),
        Value::Number(n) => ValueView::Number(n as int),
        Value::Bool(b) => ValueView::Bool(b),
        Value::Array(Array(None)) => ValueView::Array(None),
        Value::Array(Array(Some(Elements(elements)))) => ValueView::Array(
            Some(elements_view(elements@)),
        ),
        Value::Null => ValueView::Null,
    }
}

/// The views of `members`, in order.
pub open spec fn members_view(members: Seq<Member>) -> Seq<MemberView>
    decreases members,
{
    if members.len() == 0 {
        Seq::empty()
    } else {
        members_view(members.drop_last()).push(
            MemberView { key: members.last().key@, value: value_view(members.last().value) },
        )
    }
}

/// The views of `elements`, in order.
pub open spec fn elements_view(elements: Seq<Element>) -> Seq<ValueView>
    decreases elements,
{
    if elements.len() == 0 {
        Seq::empty()
    } else {
        elements_view(elements.drop_last()).push(value_view(elements.last().0))
    }
}

/// The views of a sequence with one more member are the views of the
/// sequence with the view of that member behind them.
pub proof fn lemma_members_view_push(members: Seq<Member>, member: Member)
    ensures
        members_view(members.push(member)) == members_view(members).push(member@),
{
    assert(members.push(member).drop_last() =~= members);
}

/// The views of a sequence with one more element are the views of the
/// sequence with the view of that element behind them.
pub proof fn lemma_elements_view_push(elements: Seq<Element>, element: Element)
    ensures
        elements_view(elements.push(element)) == elements_view(elements).push(element@),
{
    assert(elements.push(element).drop_last() =~= elements);
}

impl View for Value {
    type V = ValueView;

    open spec fn view(&self) -> ValueView {
        value_view(*self)
    }
}

impl View for Member {
    type V = MemberView;

    open spec fn view(&self) -> MemberView {
        MemberView { key: self.key@, value: self.value@ }
    }
}

impl View for Members {
    type V = Seq<MemberView>;

    open spec fn view(&self) -> Seq<MemberView> {
        members_view(self.0@)
    }
}

impl View for Object {
    type V = Option<Seq<MemberView>>;

    open spec fn view(&self) -> Option<Seq<MemberView>> {
        match self.0 {
            Some(members) => Some(members@),
            None => None,
        }
    }
}

impl View for Element {
    type V = ValueView;

    open spec fn view(&self) -> ValueView {
        self.0@
    }
}

impl View for Elements {
    type V = Seq<ValueView>;

    open spec fn view(&self) -> Seq<ValueView> {
        elements_view(self.0@)
    }
}

impl View for Array {
    type V = Option<Seq<ValueView>>;

    open spec fn view(&self) -> Option<Seq<ValueView>> {
        match self.0 {
            Some(elements) => Some(elements@),
            None => None,
        }
    }
}

/// The value that a literal stands for: text for a string, the number for an
/// integer, `Null` for the keyword.
pub open spec fn literal_value(literal: LiteralView) -> ValueView {
    match literal {
        LiteralView::String(s) => ValueView::String(s),
        LiteralView::Integer(i) => ValueView::Number(i),
        LiteralView::Null => ValueView::Null,
    }
}

impl From<LiteralType> for Value {
    /// The value that `literal` stands for.
    fn from(literal: LiteralType) -> (value: Value) {
        match literal {
            LiteralType::Integer(i) => Value::Number(i),
            LiteralType::String(s) => Value::String(s),
            LiteralType::Null => Value::Null,
        }
    }
}

impl FromSpecImpl<LiteralType> for Value {
    open spec fn obeys_from_spec() -> bool {
        true
    }

    /// The value that `literal` stands for; its view is
    /// `literal_value(literal@)`.
    open spec fn from_spec(literal: LiteralType) -> Value {
        match literal {
            LiteralType::Integer(i) => Value::Number(i),
            LiteralType::String(s) => Value::String(s),
            LiteralType::Null => Value::Null,
        }
    }
}

/// The value that a literal is turned into has the view that the literal's
/// view stands for.
pub proof fn lemma_from_literal(literal: LiteralType)
    ensures
        <Value as FromSpec<LiteralType>>::from_spec(literal)@ == literal_value(literal@),
{
}

impl Member {
    /// The member with this key and this value.
    pub fn new(key: String, value: Value) -> (member: Member)
        ensures
            member.key == key,
            member.value == value,
    {
        Self { key, value }
    }
}

/// The views of a sequence of members are the views of its members, each in
/// its place.
pub proof fn lemma_members_view(members: Seq<Member>)
    ensures
        members_view(members).len() == members.len(),
        forall|i: int|
            0 <= i < members.len() ==> members_view(members)[i] == (#[trigger] members[i])@,
    decreases members.len(),
{
    if members.len() > 0 {
        lemma_members_view(members.drop_last());
        assert forall|i: int| 0 <= i < members.len() implies members_view(members)[i] == (
        #[trigger] members[i])@ by {
            if i < members.len() - 1 {
                assert(members.drop_last()[i] == members[i]);
            }
        }
    }
}

/// The views of a sequence of elements are the views of its elements, each
/// in its place.
pub proof fn lemma_elements_view(elements: Seq<Element>)
    ensures
        elements_view(elements).len() == elements.len(),
        forall|i: int|
            0 <= i < elements.len() ==> elements_view(elements)[i] == (#[trigger] elements[i])@,
    decreases elements.len(),
{
    if elements.len() > 0 {
        lemma_elements_view(elements.drop_last());
        assert forall|i: int| 0 <= i < elements.len() implies elements_view(elements)[i] == (
        #[trigger] elements[i])@ by {
            if i < elements.len() - 1 {
                assert(elements.drop_last()[i] == elements[i]);
            }
        }
    }
}

/// Whether `a` and `b` are the same tree.
fn value_eq(a: &Value, b: &Value) -> (r: bool)
    ensures
        r == (a@ == b@),
    decreases a,
{
    match (a, b) {
        (Value::Object(Object(None)), Value::Object(Object(None))) => true,
        (Value::Object(Object(Some(Members(x)))), Value::Object(Object(Some(Members(y))))) => {
            members_eq(x, y)
        },
        (Value::String(x), Value::String(y)) => *x == *y,
        (Value::Number(x), Value::Number(y)) => *x == *y,
        (Value::Bool(x), Value::Bool(y)) => *x == *y,
        (Value::Array(Array(None)), Value::Array(Array(None))) => true,
        (Value::Array(Array(Some(Elements(x)))), Value::Array(Array(Some(Elements(y))))) => {
            elements_eq(x, y)
        },
        (Value::Null, Value::Null) => true,
        _ => false,
    }
}

/// Whether `a` and `b` hold the same members in the same order.
fn members_eq(a: &Vec<Member>, b: &Vec<Member>) -> (r: bool)
    ensures
        r == (members_view(a@) == members_view(b@)),
    decreases a,
{
    proof {
        lemma_members_view(a@);
        lemma_members_view(b@);
    }
    if a.len() != b.len() {
        return false;
    }
    let mut i: usize = 0;
    while i < a.len()
        invariant
            i <= a.len(),
            a.len() == b.len(),
            members_view(a@).len() == a.len(),
            members_view(b@).len() == b.len(),
            forall|j: int| 0 <= j < a.len() ==> members_view(a@)[j] == (#[trigger] a@[j])@,
            forall|j: int| 0 <= j < b.len() ==> members_view(b@)[j] == (#[trigger] b@[j])@,
            forall|j: int| 0 <= j < i ==> (#[trigger] a@[j])@ == b@[j]@,
        decreases a.len() - i,
    {
        let same_key = a[i].key == b[i].key;
        if !same_key || !value_eq(&a[i].value, &b[i].value) {
            assert(a@[i as int]@ != b@[i as int]@);
            assert(members_view(a@)[i as int] != members_view(b@)[i as int]);
            return false;
        }
        i = i + 1;
    }
    assert forall|j: int| 0 <= j < a.len() implies members_view(a@)[j] == members_view(b@)[j] by {
        assert(a@[j]@ == b@[j]@);
    }
    assert(members_view(a@) =~= members_view(b@));
    true
}

/// Whether `a` and `b` hold the same elements in the same order.
fn elements_eq(a: &Vec<Element>, b: &Vec<Element>) -> (r: bool)
    ensures
        r == (elements_view(a@) == elements_view(b@)),
    decreases a,
{
    proof {
        lemma_elements_view(a@);
        lemma_elements_view(b@);
    }
    if a.len() != b.len() {
        return false;
    }
    let mut i: usize = 0;
    while i < a.len()
        invariant
            i <= a.len(),
            a.len() == b.len(),
            elements_view(a@).len() == a.len(),
            elements_view(b@).len() == b.len(),
            forall|j: int| 0 <= j < a.len() ==> elements_view(a@)[j] == (#[trigger] a@[j])@,
            forall|j: int| 0 <= j < b.len() ==> elements_view(b@)[j] == (#[trigger] b@[j])@,
            forall|j: int| 0 <= j < i ==> (#[trigger] a@[j])@ == b@[j]@,
        decreases a.len() - i,
    {
        if !value_eq(&a[i].0, &b[i].0) {
            assert(a@[i as int]@ != b@[i as int]@);
            assert(elements_view(a@)[i as int] != elements_view(b@)[i as int]);
            return false;
        }
        i = i + 1;
    }
    assert forall|j: int| 0 <= j < a.len() implies elements_view(a@)[j] == elements_view(b@)[j] by {
        assert(a@[j]@ == b@[j]@);
    }
    assert(elements_view(a@) =~= elements_view(b@));
    true
}

impl PartialEq for Value {
    /// Two values are equal when they are the same tree.
    fn eq(&self, other: &Self) -> (r: bool) {
        value_eq(self, other)
    }
}

impl PartialEqSpecImpl for Value {
    open spec fn obeys_eq_spec() -> bool {
        true
    }

    open spec fn eq_spec(&self, other: &Self) -> bool {
        self@ == other@
    }
}

impl PartialEq for Member {
    /// Two members are equal when their keys and their values are.
    fn eq(&self, other: &Self) -> (r: bool) {
        self.key == other.key && value_eq(&self.value, &other.value)
    }
}

impl PartialEqSpecImpl for Member {
    open spec fn obeys_eq_spec() -> bool {
        true
    }

    open spec fn eq_spec(&self, other: &Self) -> bool {
        self@ == other@
    }
}

impl PartialEq for Members {
    fn eq(&self, other: &Self) -> (r: bool) {
        members_eq(&self.0, &other.0)
    }
}

impl PartialEqSpecImpl for Members {
    open spec fn obeys_eq_spec() -> bool {
        true
    }

    open spec fn eq_spec(&self, other: &Self) -> bool {
        self@ == other@
    }
}

impl PartialEq for Object {
    fn eq(&self, other: &Self) -> (r: bool) {
        match (&self.0, &other.0) {
            (Some(a), Some(b)) => members_eq(&a.0, &b.0),
            (None, None) => true,
            _ => false,
        }
    }
}

impl PartialEqSpecImpl for Object {
    open spec fn obeys_eq_spec() -> bool {
        true
    }

    open spec fn eq_spec(&self, other: &Self) -> bool {
        self@ == other@
    }
}

impl PartialEq for Element {
    fn eq(&self, other: &Self) -> (r: bool) {
        value_eq(&self.0, &other.0)
    }
}

impl PartialEqSpecImpl for Element {
    open spec fn obeys_eq_spec() -> bool {
        true
    }

    open spec fn eq_spec(&self, other: &Self) -> bool {
        self@ == other@
    }
}

impl PartialEq for Elements {
    fn eq(&self, other: &Self) -> (r: bool) {
        elements_eq(&self.0, &other.0)
    }
}

impl PartialEqSpecImpl for Elements {
    open spec fn obeys_eq_spec() -> bool {
        true
    }

    open spec fn eq_spec(&self, other: &Self) -> bool {
        self@ == other@
    }
}

impl PartialEq for Array {
    fn eq(&self, other: &Self) -> (r: bool) {
        match (&self.0, &other.0) {
            (Some(a), Some(b)) => elements_eq(&a.0, &b.0),
            (None, None) => true,
            _ => false,
        }
    }
}

impl PartialEqSpecImpl for Array {
    open spec fn obeys_eq_spec() -> bool {
        true
    }

    open spec fn eq_spec(&self, other: &Self) -> bool {
        self@ == other@
    }
}

/// A copy of `v` with a tree of its own.
fn clone_value(v: &Value) -> (r: Value)
    ensures
        r@ == v@,
    decreases v,
{
    match v {
        Value::Object(Object(None)) => Value::Object(Object(None)),
        Value::Object(Object(Some(Members(members)))) => Value::Object(
            Object(Some(Members(clone_members(members)))),
        ),
        Value::String(s) => Value::String(s.clone()),
        Value::Number(n) => Value::Number(*n),
        Value::Bool(b) => Value::Bool(*b),
        Value::Array(Array(None)) => Value::Array(Array(None)),
        Value::Array(Array(Some(Elements(elements)))) => Value::Array(
            Array(Some(Elements(clone_elements(elements)))),
        ),
        Value::Null => Value::Null,
    }
}

/// Copies of `members`, in order.
fn clone_members(members: &Vec<Member>) -> (r: Vec<Member>)
    ensures
        members_view(r@) == members_view(members@),
    decreases members,
{
    let mut copies: Vec<Member> = Vec::new();
    let mut i: usize = 0;
    assert(members@.take(0) =~= Seq::<Member>::empty());
    while i < members.len()
        invariant
            i <= members.len(),
            members_view(copies@) == members_view(members@.take(i as int)),
        decreases members.len() - i,
    {
        let member = &members[i];
        let copy = Member { key: member.key.clone(), value: clone_value(&member.value) };
        proof {
            lemma_members_view_push(copies@, copy);
            lemma_members_view_push(members@.take(i as int), *member);
            assert(members@.take(i as int).push(*member) =~= members@.take(i + 1));
        }
        copies.push(copy);
        i = i + 1;
    }
    assert(members@.take(members.len() as int) =~= members@);
    copies
}

/// Copies of `elements`, in order.
fn clone_elements(elements: &Vec<Element>) -> (r: Vec<Element>)
    ensures
        elements_view(r@) == elements_view(elements@),
    decreases elements,
{
    let mut copies: Vec<Element> = Vec::new();
    let mut i: usize = 0;
    assert(elements@.take(0) =~= Seq::<Element>::empty());
    while i < elements.len()
        invariant
            i <= elements.len(),
            elements_view(copies@) == elements_view(elements@.take(i as int)),
        decreases elements.len() - i,
    {
        let element = &elements[i];
        let copy = Element(clone_value(&element.0));
        proof {
            lemma_elements_view_push(copies@, copy);
            lemma_elements_view_push(elements@.take(i as int), *element);
            assert(elements@.take(i as int).push(*element) =~= elements@.take(i + 1));
        }
        copies.push(copy);
        i = i + 1;
    }
    assert(elements@.take(elements.len() as int) =~= elements@);
    copies
}

impl Clone for Value {
    fn clone(&self) -> (r: Self)
        ensures
            r@ == self@,
    {
        clone_value(self)
    }
}

impl Clone for Member {
    fn clone(&self) -> (r: Self)
        ensures
            r@ == self@,
    {
        Member { key: self.key.clone(), value: clone_value(&self.value) }
    }
}

impl Clone for Members {
    fn clone(&self) -> (r: Self)
        ensures
            r@ == self@,
    {
        Members(clone_members(&self.0))
    }
}

impl Clone for Object {
    fn clone(&self) -> (r: Self)
        ensures
            r@ == self@,
    {
        match &self.0 {
            Some(members) => Object(Some(Members(clone_members(&members.0)))),
            None => Object(None),
        }
    }
}

impl Clone for Element {
    fn clone(&self) -> (r: Self)
        ensures
            r@ == self@,
    {
        Element(clone_value(&self.0))
    }
}

impl Clone for Elements {
    fn clone(&self) -> (r: Self)
        ensures
            r@ == self@,
    {
        Elements(clone_elements(&self.0))
    }
}

impl Clone for Array {
    fn clone(&self) -> (r: Self)
        ensures
            r@ == self@,
    {
        match &self.0 {
            Some(elements) => Array(Some(Elements(clone_elements(&elements.0)))),
            None => Array(None),
        }
    }
}

} // verus!
