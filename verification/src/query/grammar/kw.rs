//! The words of the query language.
use vstd::prelude::*;

verus! {

/// Source-clause introducer.
pub const FROM: &'static str = "from";

/// Alias binder.
pub const AS: &'static str = "as";

/// Join introducer.
pub const JOIN: &'static str = "join";

/// Join-predicate keyword.
pub const ON: &'static str = "on";

pub const LET: &'static str = "let";

pub const WHERE: &'static str = "where";

pub const AGGREGATE: &'static str = "aggregate";

pub const SELECT: &'static str = "select";

pub const ORDER: &'static str = "order";

pub const LIMIT: &'static str = "limit";

pub const BY: &'static str = "by";

pub const GROUP: &'static str = "group";

pub const ASC: &'static str = "asc";

pub const DESC: &'static str = "desc";

pub const AND: &'static str = "and";

pub const OR: &'static str = "or";

pub const NOT: &'static str = "not";

pub const IN: &'static str = "in";

pub const EXISTS: &'static str = "exists";

/// Type test: `VALUE is TYPE`.
pub const IS: &'static str = "is";

pub const MATCHES: &'static str = "matches";

pub const STARTS_WITH: &'static str = "starts_with";

pub const ENDS_WITH: &'static str = "ends_with";

pub const CONTAINS: &'static str = "contains";

/// Type names, on the right of `is`.
pub const TYPE_STRING: &'static str = "string";

pub const TYPE_NUMBER: &'static str = "number";

pub const TYPE_BOOL: &'static str = "bool";

pub const TYPE_ARRAY: &'static str = "array";

pub const TYPE_OBJECT: &'static str = "object";

pub const SUM: &'static str = "sum";

pub const COUNT: &'static str = "count";

pub const AVG: &'static str = "avg";

pub const MIN: &'static str = "min";

pub const MAX: &'static str = "max";

pub const TRUE: &'static str = "true";

pub const FALSE: &'static str = "false";

pub const NULL: &'static str = "null";

/// Functions.
pub const ROUND: &'static str = "round";

pub const LENGTH: &'static str = "length";

pub const LOWER: &'static str = "lower";

pub const UPPER: &'static str = "upper";

pub const ABS: &'static str = "abs";

pub const FLOOR: &'static str = "floor";

pub const CEIL: &'static str = "ceil";

pub const SQRT: &'static str = "sqrt";

pub const POW: &'static str = "pow";

pub const MOD: &'static str = "mod";

pub const TRIM: &'static str = "trim";

pub const SUBSTR: &'static str = "substr";

pub const REPLACE: &'static str = "replace";

pub const IF: &'static str = "if";

/// Row deduplication.
pub const DISTINCT: &'static str = "distinct";

/// Named-predicate block.
pub const PARTITION: &'static str = "partition";

pub const EACH: &'static str = "each";

/// Field-set definition.
pub const FIELDS: &'static str = "fields";

pub const INNER: &'static str = "inner";

pub const LEFT: &'static str = "left";

/// Row expansion over an array.
pub const UNNEST: &'static str = "unnest";

pub const HAVING: &'static str = "having";

pub const COLLECT: &'static str = "collect";

pub const ROLLUP: &'static str = "rollup";

} // verus!
