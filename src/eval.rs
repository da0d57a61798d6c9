use vstd::prelude::*;

use crate::ast::{Condition, Expression, SpecCondition, SpecExpr, SpecValue, Value};
use crate::engine::TemplateEngine;
use crate::error::{EngineError, SpecError};

verus! {

/// The environment's type: variable names mapped to their values.
pub type Env = Map<Seq<char>, Seq<char>>;

/// The string an operand stands for in `env`.
pub open spec fn resolve(v: SpecValue, env: Env) -> Result<Seq<char>, SpecError> {
    match v {
        SpecValue::Literal(s) => Ok(s),
        SpecValue::Variable(n) => if env.contains_key(n) {
            Ok(env[n])
        } else {
            Err(SpecError::UndefinedVariable(n))
        },
    }
}

/// Whether a condition holds in `env`; the left operand is resolved first.
pub open spec fn holds(c: SpecCondition, env: Env) -> Result<bool, SpecError> {
    match c {
        SpecCondition::IsEqual(a, b) => match resolve(a, env) {
            Err(e) => Err(e),
            Ok(x) => match resolve(b, env) {
                Err(e) => Err(e),
                Ok(y) => Ok(x == y),
            },
        },
        SpecCondition::IsNotEqual(a, b) => match resolve(a, env) {
            Err(e) => Err(e),
            Ok(x) => match resolve(b, env) {
                Err(e) => Err(e),
                Ok(y) => Ok(x != y),
            },
        },
    }
}

/// What evaluating `e` in `env` produces, and the environment after it.
pub open spec fn eval(e: SpecExpr, env: Env) -> Result<(Option<Seq<char>>, Env), SpecError>
    decreases e,
{
    match e {
        SpecExpr::VariableAssignment(n, v) => match resolve(v, env) {
            Ok(x) => Ok((None, env.insert(n, x))),
            Err(err) => Err(err),
        },
        SpecExpr::VariableValue(n) => if env.contains_key(n) {
            Ok((Some(env[n]), env))
        } else {
            Err(SpecError::UndefinedVariable(n))
        },
        SpecExpr::StringLiteral(s) => Ok((Some(s), env)),
        SpecExpr::IfStatement(c, inner) => match holds(c, env) {
            Err(err) => Err(err),
            Ok(true) => eval(*inner, env),
            Ok(false) => Ok((None, env)),
        },
        SpecExpr::Comment => Ok((None, env)),
    }
}

/// An `if` comparing two variables runs its nested expression, and returns
/// what that produces, only when their values are equal; otherwise it
/// produces nothing and leaves the environment as it was, whatever the
/// nested expression would have assigned.
pub proof fn lemma_if_guards_nested(a: Seq<char>, b: Seq<char>, inner: SpecExpr, env: Env)
    requires
        env.contains_key(a),
        env.contains_key(b),
    ensures
        ({
            let e = SpecExpr::IfStatement(
                SpecCondition::IsEqual(SpecValue::Variable(a), SpecValue::Variable(b)),
                Box::new(inner),
            );
            &&& env[a] == env[b] ==> eval(e, env) == eval(inner, env)
            &&& env[a] != env[b] ==> eval(e, env) == Ok::<(Option<Seq<char>>, Env), SpecError>(
                (None, env),
            )
        }),
{
}

/// The value of an optional string.
pub open spec fn opt_view(o: Option<String>) -> Option<Seq<char>> {
    match o {
        Some(s) => Some(s@),
        None => None,
    }
}

impl TemplateEngine {
    /// The string an operand stands for.
    pub fn convert_value(&self, value: Value) -> (r: Result<String, EngineError>)
        ensures
            match r {
                Ok(s) => resolve(value@, self.variables@) == Ok::<Seq<char>, SpecError>(s@),
                Err(e) => resolve(value@, self.variables@) == Err::<Seq<char>, SpecError>(e@),
            },
    {
        match value {
            Value::Literal(lit) => Ok(lit),
            Value::Variable(var) => match self.variables.get(var.as_str()) {
                Some(val) => Ok(val),
                None => Err(EngineError::UndefinedVariable(var)),
            },
        }
    }

    fn condition_holds(&self, condition: Condition) -> (r: Result<bool, EngineError>)
        ensures
            match r {
                Ok(b) => holds(condition@, self.variables@) == Ok::<bool, SpecError>(b),
                Err(e) => holds(condition@, self.variables@) == Err::<bool, SpecError>(e@),
            },
    {
        match condition {
            Condition::IsEqual(a, b) => {
                let x = self.convert_value(a)?;
                let y = self.convert_value(b)?;
                Ok(x == y)
            },
            Condition::IsNotEqual(a, b) => {
                let x = self.convert_value(a)?;
                let y = self.convert_value(b)?;
                Ok(x != y)
            },
        }
    }

    /// Evaluates one expression; an assignment changes the environment, and
    /// nothing else does. On an error the environment is left as it was.
    pub fn evaluate_expression(&mut self, expression: Expression) -> (r: Result<
        Option<String>,
        EngineError,
    >)
        ensures
            final(self).template_results == old(self).template_results,
            match r {
                Ok(o) => eval(expression@, old(self).variables@) == Ok::<
                    (Option<Seq<char>>, Env),
                    SpecError,
                >((opt_view(o), final(self).variables@)),
                Err(e) => eval(expression@, old(self).variables@) == Err::<
                    (Option<Seq<char>>, Env),
                    SpecError,
                >(e@) && final(self).variables@ == old(self).variables@,
            },
        decreases expression,
    {
        match expression {
            Expression::VariableAssignment(identifier, value) => {
                let v = self.convert_value(value)?;
                self.variables.insert(identifier, v);
                Ok(None)
            },
            Expression::VariableValue(identifier) => match self.variables.get(identifier.as_str()) {
                Some(x) => Ok(Some(x)),
                None => Err(EngineError::UndefinedVariable(identifier)),
            },
            Expression::StringLiteral(lit) => Ok(Some(lit)),
            Expression::IfStatement(condition, inner) => {
                if self.condition_holds(condition)? {
                    self.evaluate_expression(*inner)
                } else {
                    Ok(None)
                }
            },
            Expression::Comment => Ok(None),
        }
    }
}

} // verus!
