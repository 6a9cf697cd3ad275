//! The value a benchmark returns, and how it is rendered in the output
//! table as an extra comparison dimension.

use vstd::prelude::*;
use std::collections::HashMap;
use crate::report::format::format_duration;
use crate::report::format::format_duration_spec;
use crate::report::format::format_with_underscores;
use crate::report::format::underscored;
use crate::strings::dec_str;
use crate::strings::push_char;
use crate::strings::push_dec;

verus! {

/// Relies on `core::mem::needs_drop`: whether values of the type may have
/// drop glue that must run.
#[verifier::external_body]
fn mem_needs_drop<T>() -> bool {
    core::mem::needs_drop::<T>()
}

/// Relies on `Duration::as_nanos`: the total number of nanoseconds the
/// duration holds. The duration value is opaque here, so nothing more is
/// assumed of the result.
pub assume_specification[ core::time::Duration::as_nanos ](d: &core::time::Duration) -> u128;

/// Every benchmark returns an `OutputValue`, which can be formatted into the
/// output table — in a compression benchmark, for example, the output size.
pub trait OutputValue {
    /// The formatted output value; `None` is not printed.
    fn format(&self) -> Option<String>;

    /// The title of the output column.
    fn column_title() -> &'static str {
        "Output"
    }

    /// Whether outputs are buffered and dropped only after the measurement
    /// was recorded: the default defers the drop exactly for types that need
    /// dropping and are not zero-sized.
    fn defer_drop() -> bool where Self: Sized {
        mem_needs_drop::<Self>() && core::mem::size_of::<Self>() > 0
    }
}

impl OutputValue for () {
    /// A unit output is not printed.
    fn format(&self) -> (r: Option<String>)
        ensures
            r.is_none(),
    {
        None
    }
}

impl OutputValue for u64 {
    /// The value with underscored thousands.
    fn format(&self) -> (r: Option<String>)
        ensures
            r matches Some(s) && s@ == underscored(*self as int),
    {
        Some(format_with_underscores(*self))
    }
}

impl OutputValue for usize {
    /// The value with underscored thousands.
    fn format(&self) -> (r: Option<String>)
        ensures
            r matches Some(s) && s@ == underscored(*self as int),
    {
        Some(format_with_underscores(*self as u64))
    }
}

impl<O: OutputValue> OutputValue for Option<O> {
    /// The inner value's rendering, or nothing.
    fn format(&self) -> (r: Option<String>)
        ensures
            self.is_none() ==> r.is_none(),
    {
        match self {
            Some(v) => v.format(),
            None => None,
        }
    }
}

impl OutputValue for String {
    /// The string itself.
    fn format(&self) -> (r: Option<String>)
        ensures
            r matches Some(s) && s@ == self@,
    {
        Some(self.clone())
    }
}

impl OutputValue for bool {
    /// `true` or `false`.
    fn format(&self) -> (r: Option<String>)
        ensures
            r matches Some(s) && s@ == (if *self {
                "true"@
            } else {
                "false"@
            }),
    {
        if *self {
            Some("true".to_owned())
        } else {
            Some("false".to_owned())
        }
    }
}

impl OutputValue for i64 {
    /// The signed decimal value.
    fn format(&self) -> (r: Option<String>)
        ensures
            r matches Some(s) && s@ == (if *self < 0 {
                seq!['-'] + dec_str(-(*self as int))
            } else {
                dec_str(*self as int)
            }),
    {
        let mut s = String::new();
        if *self < 0 {
            push_char(&mut s, '-');
            let magnitude: u128 = (-(*self as i128)) as u128;
            push_dec(&mut s, magnitude);
        } else {
            push_dec(&mut s, *self as u128);
        }
        proof {
            assert(s@ =~= if *self < 0 {
                seq!['-'] + dec_str(-(*self as int))
            } else {
                dec_str(*self as int)
            });
        }
        Some(s)
    }
}

impl OutputValue for core::time::Duration {
    /// The duration rendered in time units; nanoseconds beyond the `u64`
    /// range are truncated, as the rendering takes a `u64`.
    fn format(&self) -> (r: Option<String>)
        ensures
            r matches Some(s) && exists|n: u64| s@ == format_duration_spec(n as int),
    {
        let nanos = self.as_nanos();
        let n: u64 = #[verifier::truncate] (nanos as u64);
        Some(format_duration(n))
    }
}

impl<T> OutputValue for Vec<T> {
    /// The element count with underscored thousands.
    fn format(&self) -> (r: Option<String>)
        ensures
            r matches Some(s) && s@ == underscored(self@.len() as int),
    {
        Some(format_with_underscores(self.len() as u64))
    }

    /// Lengths are reported under their own title.
    fn column_title() -> (r: &'static str)
        ensures
            r@ == "Vec(len)"@,
    {
        "Vec(len)"
    }
}

impl<K, V> OutputValue for HashMap<K, V> {
    /// The entry count with underscored thousands.
    fn format(&self) -> (r: Option<String>)
        ensures
            r matches Some(s) && s@ == underscored(
                vstd::std_specs::hash::spec_hash_map_len(self) as int,
            ),
    {
        Some(format_with_underscores(self.len() as u64))
    }

    /// Entry counts are reported under their own title.
    fn column_title() -> (r: &'static str)
        ensures
            r@ == "Map(len)"@,
    {
        "Map(len)"
    }
}

} // verus!
