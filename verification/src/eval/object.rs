//! Runtime values and the primitive operators on them.

use vstd::prelude::*;
use vstd::string::StringExecFns;
use crate::ast::{
    clone_names, names_to_string, names_view, render_block, render_names, render_operator, Ast,
    Operator, StmtView,
};
use crate::text::{decimal, i64_to_string};

verus! {

/// A runtime value.
///
/// `ReturnValue` and `Error` are the two sentinels of control flow: a block
/// stops at the first statement that yields one of them. A function holds
/// its parameter names, its body, and the index of the scope in which it
/// was defined.
#[derive(Debug, PartialEq, Eq)]
pub enum Object {
    Integer(i64),
    Boolean(bool),
    ReturnValue(Box<Object>),
    Error(String),
    Null,
    Func { params: Vec<String>, body: Ast, env: usize },
}

/// The mathematical value of an [`Object`].
pub ghost enum ObjectView {
    Integer(i64),
    Boolean(bool),
    ReturnValue(Box<ObjectView>),
    Error(Seq<char>),
    Null,
    Func { params: Seq<Seq<char>>, body: Seq<StmtView>, env: nat },
}

impl Object {
    /// The value that this object stands for.
    pub open spec fn model(self) -> ObjectView
        decreases self,
    {
        match self {
            Object::Integer(value) => ObjectView::Integer(value),
            Object::Boolean(value) => ObjectView::Boolean(value),
            Object::ReturnValue(value) => ObjectView::ReturnValue(Box::new(value.model())),
            Object::Error(message) => ObjectView::Error(message@),
            Object::Null => ObjectView::Null,
            Object::Func { params, body, env } => ObjectView::Func {
                params: names_view(params@),
                body: body@,
                env: env as nat,
            },
        }
    }
}

impl View for Object {
    type V = ObjectView;

    open spec fn view(&self) -> ObjectView {
        self.model()
    }
}

/// The mathematical values of a run of objects.
pub open spec fn object_views(objects: Seq<Object>) -> Seq<ObjectView> {
    Seq::new(objects.len(), |i: int| objects[i]@)
}

/// The text that stands for a value where it is shown. A return value is
/// shown as the value it wraps, an error as its message, and a function as
/// the literal that defines it.
pub open spec fn render_object(object: ObjectView) -> Seq<char>
    decreases object,
{
    match object {
        ObjectView::Integer(value) => decimal(value as int),
        ObjectView::Boolean(value) => if value {
            "true"@
        } else {
            "false"@
        },
        ObjectView::ReturnValue(value) => render_object(*value),
        ObjectView::Error(message) => message,
        ObjectView::Null => "null"@,
        ObjectView::Func { params, body, env } => "fn("@ + render_names(params, params.len())
            + ") { "@ + render_block(body, body.len()) + " }"@,
    }
}

impl ObjectView {
    /// `Null` and `false` are falsy; every other value is truthy, zero too.
    pub open spec fn is_truthy(self) -> bool {
        match self {
            ObjectView::Null => false,
            ObjectView::Boolean(value) => value,
            _ => true,
        }
    }

    /// Whether this value ends the block in which it comes up.
    pub open spec fn is_sentinel(self) -> bool {
        self is ReturnValue || self is Error
    }

    /// The value of a call, or of a program, whose body gave `self`: what
    /// was returned, however many `return`s wrapped it, or else the value
    /// itself. It is never a return value: that sentinel ends here.
    pub open spec fn unwrap_return(self) -> ObjectView
        decreases self,
    {
        match self {
            ObjectView::ReturnValue(value) => value.unwrap_return(),
            other => other,
        }
    }
}

/// What was returned is no return value any more.
pub proof fn lemma_unwrap_return_is_no_return(object: ObjectView)
    ensures
        !(object.unwrap_return() is ReturnValue),
        !(object is ReturnValue) ==> object.unwrap_return() == object,
    decreases object,
{
    match object {
        ObjectView::ReturnValue(value) => {
            lemma_unwrap_return_is_no_return(*value);
        },
        _ => {},
    }
}

/// An error with the message `prefix`, the text of `left`, `middle` and the
/// text of `right`.
pub open spec fn operand_error(
    prefix: Seq<char>,
    left: ObjectView,
    middle: Seq<char>,
    right: ObjectView,
) -> ObjectView {
    ObjectView::Error(prefix + render_object(left) + middle + render_object(right))
}

/// Division of machine integers: the quotient is rounded towards zero.
pub open spec fn truncating_div(left: int, right: int) -> int
    recommends
        right != 0,
{
    if left == 0 {
        0
    } else if left > 0 && right > 0 {
        left / right
    } else if left < 0 && right < 0 {
        (left * -1) / (right * -1)
    } else if left < 0 {
        ((left * -1) / right) * -1
    } else {
        (left / (right * -1)) * -1
    }
}

/// The error for an operator that stands where a prefix operator must.
pub open spec fn unsupported_prefix(op: Operator) -> ObjectView {
    ObjectView::Error("Unsupported operator as prefix: "@ + render_operator(op))
}

/// The error for an operator that stands where an infix operator must.
pub open spec fn unsupported_infix(op: Operator) -> ObjectView {
    ObjectView::Error("Unsupported operator as infix: "@ + render_operator(op))
}

/// The value of a prefix operator applied to `operand`. `!` negates the
/// truthiness of any value; `-` negates an integer, wrapping around at the
/// bounds of the 64-bit integers, and is an error on any other value.
pub open spec fn eval_prefix(op: Operator, operand: ObjectView) -> ObjectView {
    match op {
        Operator::Bang => ObjectView::Boolean(!operand.is_truthy()),
        Operator::Minus => match operand {
            ObjectView::Integer(value) => ObjectView::Integer(0i64.wrapping_sub(value)),
            _ => ObjectView::Error("No such negative value of "@ + render_object(operand)),
        },
        _ => unsupported_prefix(op),
    }
}

/// The value of an infix operator applied to `left` and `right`.
///
/// Arithmetic is defined on two integers and wraps around at the bounds of
/// the 64-bit integers; the quotient is rounded towards zero, and dividing
/// by zero is an error. `<` and `>` are defined on two integers, `==` and
/// `!=` on two integers or two booleans. Everything else is an error that
/// names the operation and shows both operands.
pub open spec fn eval_infix(op: Operator, left: ObjectView, right: ObjectView) -> ObjectView {
    match op {
        Operator::Plus => match (left, right) {
            (ObjectView::Integer(l), ObjectView::Integer(r)) => ObjectView::Integer(
                l.wrapping_add(r),
            ),
            _ => operand_error("Cannot add "@, left, " to "@, right),
        },
        Operator::Minus => match (left, right) {
            (ObjectView::Integer(l), ObjectView::Integer(r)) => ObjectView::Integer(
                l.wrapping_sub(r),
            ),
            _ => operand_error("Cannot subtract "@, left, " from "@, right),
        },
        Operator::Multiplication => match (left, right) {
            (ObjectView::Integer(l), ObjectView::Integer(r)) => ObjectView::Integer(
                l.wrapping_mul(r),
            ),
            _ => operand_error("Cannot multiply "@, left, " and "@, right),
        },
        Operator::Division => match (left, right) {
            (ObjectView::Integer(l), ObjectView::Integer(r)) => if r == 0 {
                operand_error("Cannot divide "@, left, " and "@, right)
            } else if l == i64::MIN && r == -1 {
                ObjectView::Integer(i64::MIN)
            } else {
                ObjectView::Integer(truncating_div(l as int, r as int) as i64)
            },
            _ => operand_error("Cannot divide "@, left, " and "@, right),
        },
        Operator::LessThan => match (left, right) {
            (ObjectView::Integer(l), ObjectView::Integer(r)) => ObjectView::Boolean(l < r),
            _ => operand_error("Cannot compare "@, left, " < "@, right),
        },
        Operator::GreaterThan => match (left, right) {
            (ObjectView::Integer(l), ObjectView::Integer(r)) => ObjectView::Boolean(l > r),
            _ => operand_error("Cannot compare "@, left, " > "@, right),
        },
        Operator::Equals => match (left, right) {
            (ObjectView::Integer(l), ObjectView::Integer(r)) => ObjectView::Boolean(l == r),
            (ObjectView::Boolean(l), ObjectView::Boolean(r)) => ObjectView::Boolean(l == r),
            _ => operand_error("Cannot compare "@, left, " == "@, right),
        },
        Operator::NotEquals => match (left, right) {
            (ObjectView::Integer(l), ObjectView::Integer(r)) => ObjectView::Boolean(l != r),
            (ObjectView::Boolean(l), ObjectView::Boolean(r)) => ObjectView::Boolean(l != r),
            _ => operand_error("Cannot compare "@, left, " != "@, right),
        },
        Operator::Bang => unsupported_infix(op),
    }
}

/// A quotient of two 64-bit integers fits in 64 bits, except for the least
/// integer divided by -1.
proof fn lemma_truncating_div_fits(left: int, right: int)
    requires
        i64::MIN <= left <= i64::MAX,
        i64::MIN <= right <= i64::MAX,
        right != 0,
        !(left == i64::MIN && right == -1),
    ensures
        i64::MIN <= truncating_div(left, right) <= i64::MAX,
{
    if left > 0 && right > 0 {
        vstd::arithmetic::div_mod::lemma_div_pos_is_pos(left, right);
        vstd::arithmetic::div_mod::lemma_div_nonincreasing(left, right);
    } else if left < 0 && right < 0 {
        vstd::arithmetic::div_mod::lemma_div_pos_is_pos(-left, -right);
        vstd::arithmetic::div_mod::lemma_div_nonincreasing(-left, -right);
        if right == -1 {
            assert((-left) / 1 == -left) by (nonlinear_arith);
        } else {
            vstd::arithmetic::div_mod::lemma_div_decreases(-left, -right);
        }
    } else if left < 0 {
        vstd::arithmetic::div_mod::lemma_div_pos_is_pos(-left, right);
        vstd::arithmetic::div_mod::lemma_div_nonincreasing(-left, right);
    } else if left > 0 {
        vstd::arithmetic::div_mod::lemma_div_pos_is_pos(left, -right);
        vstd::arithmetic::div_mod::lemma_div_nonincreasing(left, -right);
    }
}

/// An error object with the message `prefix`, the text of `left`, `middle`
/// and the text of `right`.
fn operand_error_object(prefix: &str, left: &Object, middle: &str, right: &Object) -> (r: Object)
    ensures
        r@ == operand_error(prefix@, left@, middle@, right@),
{
    let mut message = String::from_str(prefix);
    message.append(left.to_string().as_str());
    message.append(middle);
    message.append(right.to_string().as_str());
    Object::Error(message)
}

impl Object {
    /// The text that stands for this value where it is shown.
    pub fn to_string(&self) -> (text: String)
        ensures
            text@ == render_object(self@),
        decreases self,
    {
        match self {
            Object::Integer(value) => i64_to_string(*value),
            Object::Boolean(value) => if *value {
                String::from_str("true")
            } else {
                String::from_str("false")
            },
            Object::ReturnValue(value) => value.to_string(),
            Object::Error(message) => message.clone(),
            Object::Null => String::from_str("null"),
            Object::Func { params, body, env } => {
                let mut text = String::from_str("fn(");
                text.append(names_to_string(params).as_str());
                text.append(") { ");
                text.append(body.to_string().as_str());
                text.append(" }");
                text
            },
        }
    }

    /// A copy of this value and of everything below it.
    pub fn deep_clone(&self) -> (copy: Object)
        ensures
            copy@ == self@,
        decreases self,
    {
        match self {
            Object::Integer(value) => Object::Integer(*value),
            Object::Boolean(value) => Object::Boolean(*value),
            Object::ReturnValue(value) => Object::ReturnValue(Box::new(value.deep_clone())),
            Object::Error(message) => Object::Error(message.clone()),
            Object::Null => Object::Null,
            Object::Func { params, body, env } => Object::Func {
                params: clone_names(params),
                body: body.deep_clone(),
                env: *env,
            },
        }
    }

    /// `Null` and `false` are falsy; every other value is truthy.
    pub fn is_truthy(&self) -> (r: bool)
        ensures
            r == self@.is_truthy(),
    {
        match self {
            Object::Null => false,
            Object::Boolean(value) => *value,
            _ => true,
        }
    }

    /// Whether this value ends the block in which it comes up.
    pub fn is_sentinel(&self) -> (r: bool)
        ensures
            r == self@.is_sentinel(),
    {
        match self {
            Object::ReturnValue(_) => true,
            Object::Error(_) => true,
            _ => false,
        }
    }

    /// What was returned, however many `return`s wrapped it, or else the
    /// value itself.
    pub fn unwrap_return(self) -> (r: Object)
        ensures
            r@ == self@.unwrap_return(),
            !(r@ is ReturnValue),
    {
        let mut value = self;
        loop
            invariant
                value@.unwrap_return() == self@.unwrap_return(),
            ensures
                value@ == self@.unwrap_return(),
                !(value@ is ReturnValue),
            decreases value,
        {
            match value {
                Object::ReturnValue(inner) => {
                    value = *inner;
                },
                other => {
                    value = other;
                    break ;
                },
            }
        }
        value
    }

    /// The boolean negation of the truthiness of this value.
    pub fn not(&self) -> (r: Object)
        ensures
            r@ == eval_prefix(Operator::Bang, self@),
    {
        Object::Boolean(!self.is_truthy())
    }

    /// The negative of an integer; an error for any other value.
    pub fn neg(&self) -> (r: Object)
        ensures
            r@ == eval_prefix(Operator::Minus, self@),
    {
        match self {
            Object::Integer(value) => Object::Integer(0i64.wrapping_sub(*value)),
            _ => {
                let mut message = String::from_str("No such negative value of ");
                message.append(self.to_string().as_str());
                Object::Error(message)
            },
        }
    }

    /// The error for an operator that stands where a prefix operator must.
    pub fn unsupported_prefix(op: Operator) -> (r: Object)
        ensures
            r@ == unsupported_prefix(op),
    {
        let mut message = String::from_str("Unsupported operator as prefix: ");
        message.append(op.symbol());
        Object::Error(message)
    }

    /// The error for an operator that stands where an infix operator must.
    pub fn unsupported_infix(op: Operator) -> (r: Object)
        ensures
            r@ == unsupported_infix(op),
    {
        let mut message = String::from_str("Unsupported operator as infix: ");
        message.append(op.symbol());
        Object::Error(message)
    }

    /// The value of the prefix operator `op` applied to this value.
    pub fn prefix(&self, op: Operator) -> (r: Object)
        ensures
            r@ == eval_prefix(op, self@),
    {
        match op {
            Operator::Bang => self.not(),
            Operator::Minus => self.neg(),
            _ => Object::unsupported_prefix(op),
        }
    }

    /// The sum of two integers.
    pub fn add(&self, rhs: &Object) -> (r: Object)
        ensures
            r@ == eval_infix(Operator::Plus, self@, rhs@),
    {
        match (self, rhs) {
            (Object::Integer(l), Object::Integer(r)) => Object::Integer(l.wrapping_add(*r)),
            _ => operand_error_object("Cannot add ", self, " to ", rhs),
        }
    }

    /// The difference of two integers.
    pub fn sub(&self, rhs: &Object) -> (r: Object)
        ensures
            r@ == eval_infix(Operator::Minus, self@, rhs@),
    {
        match (self, rhs) {
            (Object::Integer(l), Object::Integer(r)) => Object::Integer(l.wrapping_sub(*r)),
            _ => operand_error_object("Cannot subtract ", self, " from ", rhs),
        }
    }

    /// The product of two integers.
    pub fn mul(&self, rhs: &Object) -> (r: Object)
        ensures
            r@ == eval_infix(Operator::Multiplication, self@, rhs@),
    {
        match (self, rhs) {
            (Object::Integer(l), Object::Integer(r)) => Object::Integer(l.wrapping_mul(*r)),
            _ => operand_error_object("Cannot multiply ", self, " and ", rhs),
        }
    }

    /// The quotient of two integers, rounded towards zero.
    pub fn div(&self, rhs: &Object) -> (r: Object)
        ensures
            r@ == eval_infix(Operator::Division, self@, rhs@),
    {
        match (self, rhs) {
            (Object::Integer(l), Object::Integer(r)) => {
                if *r == 0 {
                    operand_error_object("Cannot divide ", self, " and ", rhs)
                } else {
                    proof {
                        if !(*l == i64::MIN && *r == -1) {
                            lemma_truncating_div_fits(*l as int, *r as int);
                        } else {
                            assert(0x8000_0000_0000_0000int / 1 == 0x8000_0000_0000_0000int)
                                by (nonlinear_arith);
                        }
                    }
                    match l.checked_div(*r) {
                        Some(quotient) => Object::Integer(quotient),
                        None => Object::Integer(i64::MIN),
                    }
                }
            },
            _ => operand_error_object("Cannot divide ", self, " and ", rhs),
        }
    }

    /// Whether one integer is less than another.
    pub fn less_than(&self, rhs: &Object) -> (r: Object)
        ensures
            r@ == eval_infix(Operator::LessThan, self@, rhs@),
    {
        match (self, rhs) {
            (Object::Integer(l), Object::Integer(r)) => Object::Boolean(*l < *r),
            _ => operand_error_object("Cannot compare ", self, " < ", rhs),
        }
    }

    /// Whether one integer is greater than another.
    pub fn greater_than(&self, rhs: &Object) -> (r: Object)
        ensures
            r@ == eval_infix(Operator::GreaterThan, self@, rhs@),
    {
        match (self, rhs) {
            (Object::Integer(l), Object::Integer(r)) => Object::Boolean(*l > *r),
            _ => operand_error_object("Cannot compare ", self, " > ", rhs),
        }
    }

    /// Whether two integers, or two booleans, are equal.
    pub fn equals(&self, rhs: &Object) -> (r: Object)
        ensures
            r@ == eval_infix(Operator::Equals, self@, rhs@),
    {
        match (self, rhs) {
            (Object::Integer(l), Object::Integer(r)) => Object::Boolean(*l == *r),
            (Object::Boolean(l), Object::Boolean(r)) => Object::Boolean(*l == *r),
            _ => operand_error_object("Cannot compare ", self, " == ", rhs),
        }
    }

    /// Whether two integers, or two booleans, differ.
    pub fn not_equals(&self, rhs: &Object) -> (r: Object)
        ensures
            r@ == eval_infix(Operator::NotEquals, self@, rhs@),
    {
        match (self, rhs) {
            (Object::Integer(l), Object::Integer(r)) => Object::Boolean(*l != *r),
            (Object::Boolean(l), Object::Boolean(r)) => Object::Boolean(*l != *r),
            _ => operand_error_object("Cannot compare ", self, " != ", rhs),
        }
    }

    /// The value of the infix operator `op` applied to this value and `rhs`.
    pub fn infix(&self, op: Operator, rhs: &Object) -> (r: Object)
        ensures
            r@ == eval_infix(op, self@, rhs@),
    {
        match op {
            Operator::Plus => self.add(rhs),
            Operator::Minus => self.sub(rhs),
            Operator::Multiplication => self.mul(rhs),
            Operator::Division => self.div(rhs),
            Operator::LessThan => self.less_than(rhs),
            Operator::GreaterThan => self.greater_than(rhs),
            Operator::Equals => self.equals(rhs),
            Operator::NotEquals => self.not_equals(rhs),
            Operator::Bang => Object::unsupported_infix(op),
        }
    }
}

impl Clone for Object {
    fn clone(&self) -> (copy: Object)
        ensures
            copy@ == self@,
    {
        self.deep_clone()
    }
}

} // verus!
