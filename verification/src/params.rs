//! The loosely typed parameter bag a transformation step carries: string
//! keys mapped to numbers, strings or booleans, read with per-field
//! defaulting.  Non-integer numbers are carried in thousandths; integer
//! parameters read as real numbers are clamped to the thousandths range
//! the engine computes on.

use vstd::prelude::*;
use vstd::string::StringSliceAdditionalSpecFns;

use crate::text::bytes_eq;

verus! {

/// The bytes of a string value, the form keys are compared in.
pub open spec fn string_bytes(s: String) -> Seq<u8> {
    vstd::utf8::encode_utf8(s@)
}

#[derive(Clone, PartialEq, Eq, Debug)]
pub enum ParamValue {
    Null,
    Bool(bool),
    /// An integer number.
    Int(i64),
    /// A non-integer number, in thousandths.
    Milli(i64),
    Str(String),
}

/// A parameter bag: keys to values, first binding of a key winning.
pub struct Params {
    pub entries: Vec<(String, ParamValue)>,
}

impl Params {
    pub open spec fn view(self) -> Seq<(Seq<u8>, ParamValue)> {
        self.entries@.map_values(|e: (String, ParamValue)| (string_bytes(e.0), e.1))
    }

    pub fn new() -> (p: Params)
        ensures
            p@.len() == 0,
    {
        Params { entries: Vec::new() }
    }

    pub fn push(&mut self, key: String, value: ParamValue)
        ensures
            final(self)@ == old(self)@.push((string_bytes(key), value)),
    {
        self.entries.push((key, value));
        proof {
            assert(self@ =~= old(self)@.push(
                (string_bytes(self.entries@.last().0), self.entries@.last().1),
            ));
        }
    }
}

/// The first value bound to `key`, or null.
pub open spec fn spec_get(s: Seq<(Seq<u8>, ParamValue)>, key: Seq<u8>) -> ParamValue
    decreases s.len(),
{
    if s.len() == 0 {
        ParamValue::Null
    } else if s[0].0 == key {
        s[0].1
    } else {
        spec_get(s.drop_first(), key)
    }
}

/// A number read in thousandths: integers scaled up and clamped to the
/// magnitude the engine computes on, fractional numbers as carried;
/// anything else falls back to the default.
pub open spec fn milli_of(v: ParamValue, dflt: int) -> int {
    match v {
        ParamValue::Int(i) => if i > 1_000_000 {
            1_000_000_000
        } else if i < -1_000_000 {
            -1_000_000_000
        } else {
            i * 1000
        },
        ParamValue::Milli(m) => if m > 1_000_000_000 {
            1_000_000_000int
        } else if m < -1_000_000_000 {
            -1_000_000_000int
        } else {
            m as int
        },
        _ => dflt,
    }
}

/// A non-negative integer, as `as_u64` reads it: only an integer number
/// at least zero; anything else falls back to the default.
pub open spec fn u64_of(v: ParamValue, dflt: int) -> int {
    match v {
        ParamValue::Int(i) => if i >= 0 {
            i as int
        } else {
            dflt
        },
        _ => dflt,
    }
}

/// A signed integer, as `as_i64` reads it.
pub open spec fn i64_of(v: ParamValue, dflt: int) -> int {
    match v {
        ParamValue::Int(i) => i as int,
        _ => dflt,
    }
}

pub open spec fn bool_of(v: ParamValue, dflt: bool) -> bool {
    match v {
        ParamValue::Bool(b) => b,
        _ => dflt,
    }
}

/// Two parameter values carrying the same content; string payloads are
/// compared by their characters.
pub open spec fn pv_eq(a: ParamValue, b: ParamValue) -> bool {
    match (a, b) {
        (ParamValue::Str(x), ParamValue::Str(y)) => x@ == y@,
        _ => a == b,
    }
}

fn clone_value(v: &ParamValue) -> (r: ParamValue)
    ensures
        pv_eq(r, *v),
{
    match v {
        ParamValue::Null => ParamValue::Null,
        ParamValue::Bool(b) => ParamValue::Bool(*b),
        ParamValue::Int(i) => ParamValue::Int(*i),
        ParamValue::Milli(m) => ParamValue::Milli(*m),
        ParamValue::Str(s) => ParamValue::Str(s.clone()),
    }
}

impl Params {
    /// Look the key up, cloning the bound value.
    pub fn get(&self, key: &str) -> (r: ParamValue)
        ensures
            pv_eq(r, spec_get(self@, key.spec_bytes())),
    {
        let n = self.entries.len();
        let mut i: usize = 0;
        proof {
            assert(self@.skip(0) =~= self@);
        }
        while i < n
            invariant
                i <= n,
                n == self.entries@.len(),
                spec_get(self@, key.spec_bytes()) == spec_get(
                    self@.skip(i as int),
                    key.spec_bytes(),
                ),
            decreases n - i,
        {
            let e = &self.entries[i];
            proof {
                assert(self@.skip(i as int)[0] == self@[i as int]);
                assert(self@.skip(i as int).drop_first() =~= self@.skip(i as int + 1));
            }
            if bytes_eq(e.0.as_str().as_bytes(), key.as_bytes()) {
                return clone_value(&e.1);
            }
            i = i + 1;
        }
        proof {
            assert(self@.skip(n as int) =~= Seq::empty());
        }
        ParamValue::Null
    }

    /// A number in thousandths, with a default in thousandths.
    pub fn get_milli(&self, key: &str, dflt: i64) -> (r: i64)
        ensures
            r as int == milli_of(spec_get(self@, key.spec_bytes()), dflt as int),
    {
        match self.get(key) {
            ParamValue::Int(i) => {
                if i > 1_000_000 {
                    1_000_000_000
                } else if i < -1_000_000 {
                    -1_000_000_000
                } else {
                    i * 1000
                }
            },
            ParamValue::Milli(m) => {
                if m > 1_000_000_000 {
                    1_000_000_000
                } else if m < -1_000_000_000 {
                    -1_000_000_000
                } else {
                    m
                }
            },
            _ => dflt,
        }
    }

    /// A non-negative integer, with a default.
    pub fn get_u64(&self, key: &str, dflt: u64) -> (r: u64)
        ensures
            r as int == u64_of(spec_get(self@, key.spec_bytes()), dflt as int),
    {
        match self.get(key) {
            ParamValue::Int(i) => {
                if i >= 0 {
                    i as u64
                } else {
                    dflt
                }
            },
            _ => dflt,
        }
    }

    /// A signed integer, with a default.
    pub fn get_i64(&self, key: &str, dflt: i64) -> (r: i64)
        ensures
            r as int == i64_of(spec_get(self@, key.spec_bytes()), dflt as int),
    {
        match self.get(key) {
            ParamValue::Int(i) => i,
            _ => dflt,
        }
    }

    pub fn get_bool(&self, key: &str, dflt: bool) -> (r: bool)
        ensures
            r == bool_of(spec_get(self@, key.spec_bytes()), dflt),
    {
        match self.get(key) {
            ParamValue::Bool(b) => b,
            _ => dflt,
        }
    }

    /// The bound string, if the value is one.
    pub fn get_str(&self, key: &str) -> (r: Option<String>)
        ensures
            r is Some <==> spec_get(self@, key.spec_bytes()) is Str,
            r matches Some(s) ==> (spec_get(self@, key.spec_bytes()) matches ParamValue::Str(t)
                && s@ == t@),
    {
        match self.get(key) {
            ParamValue::Str(s) => Some(s),
            _ => None,
        }
    }
}

} // verus!
