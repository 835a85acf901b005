//! Sets of types.
use vstd::prelude::*;

verus! {

/// A set of types: those that a value at some place may have. `undefined` is in the set where
/// there may be no value at the place.
#[derive(Clone, Copy, PartialEq, Eq, Debug, Structural)]
pub struct Types {
    pub bytes: bool,
    pub integer: bool,
    pub float: bool,
    pub boolean: bool,
    pub timestamp: bool,
    pub regex: bool,
    pub null: bool,
    pub undefined: bool,
    pub array: bool,
    pub object: bool,
}

/// One type. `Undefined` is the type of a missing value.
pub enum Type {
    Bytes,
    Integer,
    Float,
    Boolean,
    Timestamp,
    Regex,
    Null,
    Undefined,
    Array,
    Object,
}

impl Types {
    /// Whether the type is in the set.
    pub open spec fn has(self, t: Type) -> bool {
        match t {
            Type::Bytes => self.bytes,
            Type::Integer => self.integer,
            Type::Float => self.float,
            Type::Boolean => self.boolean,
            Type::Timestamp => self.timestamp,
            Type::Regex => self.regex,
            Type::Null => self.null,
            Type::Undefined => self.undefined,
            Type::Array => self.array,
            Type::Object => self.object,
        }
    }

    /// The set of the types with a property.
    pub open spec fn all_with(property: spec_fn(Type) -> bool) -> Types {
        Types {
            bytes: property(Type::Bytes),
            integer: property(Type::Integer),
            float: property(Type::Float),
            boolean: property(Type::Boolean),
            timestamp: property(Type::Timestamp),
            regex: property(Type::Regex),
            null: property(Type::Null),
            undefined: property(Type::Undefined),
            array: property(Type::Array),
            object: property(Type::Object),
        }
    }

    /// The empty set.
    pub open spec fn none() -> Types {
        Types {
            bytes: false,
            integer: false,
            float: false,
            boolean: false,
            timestamp: false,
            regex: false,
            null: false,
            undefined: false,
            array: false,
            object: false,
        }
    }

    /// The set of all types.
    pub open spec fn all() -> Types {
        Types {
            bytes: true,
            integer: true,
            float: true,
            boolean: true,
            timestamp: true,
            regex: true,
            null: true,
            undefined: true,
            array: true,
            object: true,
        }
    }

    /// The types of either set.
    pub open spec fn or(self, other: Types) -> Types {
        Types {
            bytes: self.bytes || other.bytes,
            integer: self.integer || other.integer,
            float: self.float || other.float,
            boolean: self.boolean || other.boolean,
            timestamp: self.timestamp || other.timestamp,
            regex: self.regex || other.regex,
            null: self.null || other.null,
            undefined: self.undefined || other.undefined,
            array: self.array || other.array,
            object: self.object || other.object,
        }
    }

    /// Whether each type of this set is in the other one.
    pub open spec fn within(self, other: Types) -> bool {
        self.or(other) == other
    }

    /// The set and `undefined`.
    pub open spec fn with_undefined(self) -> Types {
        Types { undefined: true, ..self }
    }

    /// Whether there is a type in the set other than `undefined`.
    pub open spec fn any_defined(self) -> bool {
        !self.within(Types::none().with_undefined())
    }

    /// Whether there is a type in the set that is neither `undefined`, nor array, nor object.
    pub open spec fn any_primitive(self) -> bool {
        self.bytes || self.integer || self.float || self.boolean || self.timestamp || self.regex
            || self.null
    }

    /// Two sets with the same types are one set.
    pub proof fn same_types(self, other: Types)
        requires
            forall|t: Type| self.has(t) == other.has(t),
        ensures
            self == other,
    {
        assert(self.has(Type::Bytes) == other.has(Type::Bytes));
        assert(self.has(Type::Integer) == other.has(Type::Integer));
        assert(self.has(Type::Float) == other.has(Type::Float));
        assert(self.has(Type::Boolean) == other.has(Type::Boolean));
        assert(self.has(Type::Timestamp) == other.has(Type::Timestamp));
        assert(self.has(Type::Regex) == other.has(Type::Regex));
        assert(self.has(Type::Null) == other.has(Type::Null));
        assert(self.has(Type::Undefined) == other.has(Type::Undefined));
        assert(self.has(Type::Array) == other.has(Type::Array));
        assert(self.has(Type::Object) == other.has(Type::Object));
    }

    /// Which types are in which sets.
    pub proof fn each_type_is_in_or_out(self, other: Types, t: Type)
        ensures
            !Types::none().has(t),
            Types::all().has(t),
            self.or(other).has(t) <==> self.has(t) || other.has(t),
            self.with_undefined().has(t) <==> self.has(t) || t == Type::Undefined,
            self.within(other) && self.has(t) ==> other.has(t),
            self.has(t) <==> match t {
                Type::Bytes => self.bytes,
                Type::Integer => self.integer,
                Type::Float => self.float,
                Type::Boolean => self.boolean,
                Type::Timestamp => self.timestamp,
                Type::Regex => self.regex,
                Type::Null => self.null,
                Type::Undefined => self.undefined,
                Type::Array => self.array,
                Type::Object => self.object,
            },
    {
        assert(self.or(other).has(t) <==> self.has(t) || other.has(t));
    }

    /// Whether there is a type in the set other than `undefined`.
    pub fn contains_any_defined(self) -> (r: bool)
        ensures
            r == self.any_defined(),
    {
        self.contains_any_primitive() || self.array || self.object
    }

    /// Whether there is a type in the set that is neither `undefined`, nor array, nor object.
    pub fn contains_any_primitive(self) -> (r: bool)
        ensures
            r == self.any_primitive(),
    {
        self.bytes || self.integer || self.float || self.boolean || self.timestamp || self.regex
            || self.null
    }

    /// The empty set.
    pub fn empty() -> (r: Types)
        ensures
            r == Types::none(),
    {
        Types {
            bytes: false,
            integer: false,
            float: false,
            boolean: false,
            timestamp: false,
            regex: false,
            null: false,
            undefined: false,
            array: false,
            object: false,
        }
    }

    /// The set of all types.
    pub fn full() -> (r: Types)
        ensures
            r == Types::all(),
    {
        Types {
            bytes: true,
            integer: true,
            float: true,
            boolean: true,
            timestamp: true,
            regex: true,
            null: true,
            undefined: true,
            array: true,
            object: true,
        }
    }

    /// The types of either set.
    pub fn union(self, other: Types) -> (r: Types)
        ensures
            r == self.or(other),
    {
        Types {
            bytes: self.bytes || other.bytes,
            integer: self.integer || other.integer,
            float: self.float || other.float,
            boolean: self.boolean || other.boolean,
            timestamp: self.timestamp || other.timestamp,
            regex: self.regex || other.regex,
            null: self.null || other.null,
            undefined: self.undefined || other.undefined,
            array: self.array || other.array,
            object: self.object || other.object,
        }
    }
}

} // verus!
