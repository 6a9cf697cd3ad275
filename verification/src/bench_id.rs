//! The identity of one measurable unit: runner name, optional group name
//! and benchmark name, and its stable filesystem-safe rendering.

use vstd::prelude::*;
use vstd::string::StrSliceExecFns;
use crate::strings::contains_sub;
use crate::strings::is_substring;
use crate::strings::push_char;

verus! {

/// The slash of a path becomes a dash, so a rendered name is safe as a file
/// name.
pub open spec fn slash_to_dash(c: char) -> char {
    if c == '/' {
        '-'
    } else {
        c
    }
}

/// `s` with every slash replaced by a dash.
pub open spec fn sanitized(s: Seq<char>) -> Seq<char> {
    s.map_values(|c: char| slash_to_dash(c))
}

/// The characters of an optional name, empty when absent.
pub open spec fn opt_name_view(o: Option<String>) -> Seq<char> {
    match o {
        Option::Some(s) => s@,
        Option::None => Seq::<char>::empty(),
    }
}

/// The stable on-disk rendering of an identity: the three parts joined with
/// underscores, slashes replaced by dashes. The same identity always renders
/// the same, which is what lets a later run find this run's statistics.
pub open spec fn full_name_seq(runner: Seq<char>, group: Seq<char>, name: Seq<char>) -> Seq<char> {
    sanitized(runner + "_"@ + group + "_"@ + name)
}

/// A unique identifier for a benchmark: the runner it belongs to, the group
/// (typically the input name), and the benchmark's own name. Two identities
/// are equal exactly when all three components match.
#[derive(Clone, Debug, PartialEq, Eq, PartialOrd, Ord, Hash)]
pub struct BenchId {
    /// The name set on the benchmark runner.
    pub runner_name: Option<String>,
    /// The name of the group, typically the input name.
    pub group_name: Option<String>,
    /// The name of the benchmark.
    pub bench_name: String,
}

/// Whether two identities agree in all three components.
pub open spec fn id_eq(a: BenchId, b: BenchId) -> bool {
    &&& a.bench_name@ == b.bench_name@
    &&& match (a.runner_name, b.runner_name) {
        (Option::Some(x), Option::Some(y)) => x@ == y@,
        (Option::None, Option::None) => true,
        _ => false,
    }
    &&& match (a.group_name, b.group_name) {
        (Option::Some(x), Option::Some(y)) => x@ == y@,
        (Option::None, Option::None) => true,
    _ => false,
    }
}

/// Compares two identities component by component.
pub fn bench_id_matches(a: &BenchId, b: &BenchId) -> (r: bool)
    ensures
        r == id_eq(*a, *b),
{
    let names_eq = crate::strings::str_eq(a.bench_name.as_str(), b.bench_name.as_str());
    let runner_eq = match (&a.runner_name, &b.runner_name) {
        (Some(x), Some(y)) => crate::strings::str_eq(x.as_str(), y.as_str()),
        (None, None) => true,
        _ => false,
    };
    let group_eq = match (&a.group_name, &b.group_name) {
        (Some(x), Some(y)) => crate::strings::str_eq(x.as_str(), y.as_str()),
        (None, None) => true,
        _ => false,
    };
    names_eq && runner_eq && group_eq
}

impl BenchId {
    /// An identity holding only the benchmark's own name.
    pub fn from_bench_name(bench_name: String) -> (r: BenchId)
        ensures
            r.runner_name.is_none(),
            r.group_name.is_none(),
            r.bench_name == bench_name,
    {
        BenchId { runner_name: None, group_name: None, bench_name }
    }

    /// The identity with its runner name set.
    pub fn runner_name(self, name: Option<&str>) -> (r: BenchId)
        ensures
            match name {
                Option::Some(n) => r.runner_name matches Some(s) && s@ == n@,
                Option::None => r.runner_name.is_none(),
            },
            r.group_name == self.group_name,
            r.bench_name == self.bench_name,
    {
        BenchId {
            runner_name: match name {
                Some(n) => Some(n.to_owned()),
                None => None,
            },
            ..self
        }
    }

    /// The identity with its group name set.
    pub fn group_name(self, name: Option<String>) -> (r: BenchId)
        ensures
            r.group_name == name,
            r.runner_name == self.runner_name,
            r.bench_name == self.bench_name,
    {
        BenchId { group_name: name, ..self }
    }

    /// The full rendered name of this identity, with absent components
    /// rendered empty.
    pub fn get_full_name(&self) -> (r: String)
        ensures
            r@ == full_name_seq(
                opt_name_view(self.runner_name),
                opt_name_view(self.group_name),
                self.bench_name@,
            ),
    {
        let runner: &str = match &self.runner_name {
            Some(s) => s.as_str(),
            None => "",
        };
        let group: &str = match &self.group_name {
            Some(s) => s.as_str(),
            None => "",
        };
        proof {
            reveal_strlit("");
            assert(runner@ == opt_name_view(self.runner_name));
            assert(group@ == opt_name_view(self.group_name));
        }
        get_bench_id(runner, group, self.bench_name.as_str())
    }
}

fn push_sanitized(s: &mut String, part: &str)
    ensures
        final(s)@ == old(s)@ + sanitized(part@),
{
    let len = part.unicode_len();
    let mut i: usize = 0;
    while i < len
        invariant
            i <= len,
            len == part@.len(),
            s@ == old(s)@ + sanitized(part@.take(i as int)),
        decreases len - i,
    {
        let c = part.get_char(i);
        let mapped = if c == '/' {
            '-'
        } else {
            c
        };
        push_char(&mut *s, mapped);
        proof {
            assert(s@ =~= old(s)@ + sanitized(part@.take(i + 1)));
        }
        i = i + 1;
    }
    proof {
        assert(part@.take(len as int) =~= part@);
    }
}

/// Renders an identity's parts into the stable name used for persisted
/// statistics: the parts joined with underscores, slashes replaced by
/// dashes.
pub fn get_bench_id(runner_name: &str, group_name: &str, bench_name: &str) -> (r: String)
    ensures
        r@ == full_name_seq(runner_name@, group_name@, bench_name@),
{
    let mut s = String::new();
    push_sanitized(&mut s, runner_name);
    push_char(&mut s, '_');
    push_sanitized(&mut s, group_name);
    push_char(&mut s, '_');
    push_sanitized(&mut s, bench_name);
    proof {
        reveal_strlit("_");
        assert(s@ =~= full_name_seq(runner_name@, group_name@, bench_name@));
    }
    s
}

/// Whether a benchmark passes the active name filter: with no filter every
/// benchmark runs; with one, only benchmarks whose full name contains it, or
/// equals it when the filter is exact.
pub fn filter_matches(full_name: &str, filter: &Option<String>, exact: bool) -> (r: bool)
    ensures
        r == match filter {
            Option::Some(f) => if exact {
                full_name@ == f@
            } else {
                is_substring(full_name@, f@)
            },
            Option::None => true,
        },
{
    match filter {
        Some(f) => {
            if exact {
                crate::strings::str_eq(full_name, f.as_str())
            } else {
                contains_sub(full_name, f.as_str())
            }
        },
        None => true,
    }
}

} // verus!
