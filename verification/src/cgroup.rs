//! Per-service cgroup v2 limits: how a unit's limits are written into the
//! `forge.slice` hierarchy.
use vstd::prelude::*;
use crate::text::{
    all_digits, chars_of, concat, decimal, ends_with, eq_ignore_case, lower_chars, lower_seq,
    parse_u64_range, parse_unsigned, str_to_string, string_of, strings_view, strip_suffix, trim,
    trim_bounds, u64_to_string, is_digit,
};

verus! {

/// Resource limits of a service.
#[derive(Debug, Clone, Default)]
pub struct ServiceLimits {
    pub memory_max: Option<String>,
    pub tasks_max: Option<u64>,
}

impl ServiceLimits {
    /// A copy of these limits.
    pub fn duplicate(&self) -> (r: Self)
        ensures
            r == *self,
    {
        ServiceLimits {
            memory_max: match &self.memory_max {
                Some(m) => Some(m.clone()),
                None => None,
            },
            tasks_max: self.tasks_max,
        }
    }
}

/// `name` with every `/` replaced by `_`, so it can be a cgroup directory name.
pub open spec fn sanitized(name: Seq<char>) -> Seq<char> {
    name.map_values(|c: char| if c == '/' { '_' } else { c })
}

pub fn sanitize_name(name: &str) -> (r: String)
    ensures
        r@ == sanitized(name@),
{
    let v = chars_of(name);
    let mut out: Vec<char> = Vec::new();
    let mut i: usize = 0;
    while i < v.len()
        invariant
            i <= v@.len(),
            v@ == name@,
            out@ == sanitized(v@.take(i as int)),
        decreases v.len() - i,
    {
        let c = v[i];
        out.push(if c == '/' { '_' } else { c });
        i = i + 1;
        assert(sanitized(v@.take(i as int)) =~= sanitized(v@.take(i - 1)).push(
            if c == '/' { '_' } else { c },
        ));
    }
    assert(v@.take(v@.len() as int) =~= v@);
    string_of(out.as_slice())
}

/// The number part and the byte factor of a lower-cased size such as `512m` or `2gb`.
pub open spec fn size_suffix(lower: Seq<char>) -> Option<(Seq<char>, nat)> {
    let num_part = match strip_suffix(lower, seq!['b']) {
        Some(x) => x,
        None => lower,
    };
    if ends_with(num_part, seq!['k']) {
        Some((num_part.drop_last(), 1024))
    } else if ends_with(num_part, seq!['m']) {
        Some((num_part.drop_last(), 1024 * 1024))
    } else if ends_with(num_part, seq!['g']) {
        Some((num_part.drop_last(), 1024 * 1024 * 1024))
    } else {
        None
    }
}

/// The byte count of a number part with its factor; an unreadable number counts as 0.
pub open spec fn scaled(num: Seq<char>, factor: nat) -> nat {
    match parse_unsigned(trim(num), u64::MAX as nat) {
        Some(n) => n * factor,
        None => 0,
    }
}

pub open spec fn is_unlimited(t: Seq<char>) -> bool {
    lower_seq(t) == lower_seq("max"@) || lower_seq(t) == lower_seq("infinity"@)
}

/// What `memory.max` receives for a configured limit.
pub open spec fn memory_max_value(value: Seq<char>) -> Seq<char> {
    let t = trim(value);
    if is_unlimited(t) {
        "max"@
    } else if all_digits(t) {
        t
    } else {
        match size_suffix(lower_seq(t)) {
            Some((num, f)) => decimal(scaled(num, f)),
            None => t,
        }
    }
}

/// The limit has a size suffix whose byte count does not fit in a `u64`.
pub open spec fn memory_max_overflows(value: Seq<char>) -> bool {
    let t = trim(value);
    &&& !is_unlimited(t)
    &&& !all_digits(t)
    &&& match size_suffix(lower_seq(t)) {
        Some((num, f)) => scaled(num, f) > u64::MAX,
        None => false,
    }
}

fn all_ascii_digits(v: &[char], a: usize, b: usize) -> (r: bool)
    requires
        a <= b <= v@.len(),
    ensures
        r == all_digits(v@.subrange(a as int, b as int)),
{
    let mut i = a;
    while i < b
        invariant
            a <= i <= b <= v@.len(),
            forall|k: int| a <= k < i ==> is_digit(v@[k]),
        decreases b - i,
    {
        if !('0' <= v[i] && v[i] <= '9') {
            assert(!is_digit(v@.subrange(a as int, b as int)[i - a]));
            return false;
        }
        i = i + 1;
    }
    assert forall|k: int| 0 <= k < b - a implies is_digit(
        #[trigger] v@.subrange(a as int, b as int)[k],
    ) by {
        assert(v@.subrange(a as int, b as int)[k] == v@[a + k]);
    }
    true
}

/// The number part and the factor, as positions into `lower`.
fn split_size(lower: &[char]) -> (r: Option<(usize, u64)>)
    ensures
        match r {
            Some((e, f)) => e <= lower@.len() && size_suffix(lower@) == Some(
                (lower@.take(e as int), f as nat),
            ),
            None => size_suffix(lower@) is None,
        },
{
    let mut end = lower.len();
    if end > 0 && lower[end - 1] == 'b' {
        end = end - 1;
    }
    proof {
        let np = match strip_suffix(lower@, seq!['b']) {
            Some(x) => x,
            None => lower@,
        };
        if ends_with(lower@, seq!['b']) {
            assert(lower@.skip(lower@.len() - 1)[0] == 'b');
        } else if lower@.len() > 0 && lower@.last() == 'b' {
            assert(lower@.skip(lower@.len() - 1) =~= seq!['b']);
        }
        assert(np =~= lower@.take(end as int));
    }
    let ghost np = lower@.take(end as int);
    if end == 0 {
        assert(!ends_with(np, seq!['k']) && !ends_with(np, seq!['m']) && !ends_with(np, seq!['g']));
        return None;
    }
    let c = lower[end - 1];
    proof {
        assert(np.last() == c);
        if ends_with(np, seq!['k']) {
            assert(np.skip(np.len() - 1)[0] == 'k');
        }
        if ends_with(np, seq!['m']) {
            assert(np.skip(np.len() - 1)[0] == 'm');
        }
        if ends_with(np, seq!['g']) {
            assert(np.skip(np.len() - 1)[0] == 'g');
        }
        if c == 'k' || c == 'm' || c == 'g' {
            assert(np.skip(np.len() - 1) =~= seq![c]);
        }
        assert(np.drop_last() =~= lower@.take(end - 1));
    }
    if c == 'k' {
        Some((end - 1, 1024))
    } else if c == 'm' {
        Some((end - 1, 1024 * 1024))
    } else if c == 'g' {
        Some((end - 1, 1024 * 1024 * 1024))
    } else {
        None
    }
}

/// Whether `normalize_memory_max` would overflow on `value`.
pub fn memory_max_too_large(value: &str) -> (r: bool)
    ensures
        r == memory_max_overflows(value@),
{
    let v = chars_of(value);
    let (a, b) = trim_bounds(v.as_slice(), 0, v.len());
    assert(v@.subrange(0, v@.len() as int) =~= v@);
    let t = &v[a..b];
    if eq_ignore_case(t, "max") || eq_ignore_case(t, "infinity") {
        return false;
    }
    assert(t@.subrange(0, t@.len() as int) =~= t@);
    if all_ascii_digits(t, 0, t.len()) {
        return false;
    }
    let lower = lower_chars(t);
    match split_size(lower.as_slice()) {
        Some((e, f)) => {
            let (na, nb) = trim_bounds(lower.as_slice(), 0, e);
            assert(lower@.subrange(0, e as int) =~= lower@.take(e as int));
            match parse_u64_range(lower.as_slice(), na, nb) {
                Some(n) => {
                    assert(f > 0);
                    assert((n > u64::MAX / f) == (n * f > u64::MAX)) by (nonlinear_arith)
                        requires
                            f > 0,
                    ;
                    n > u64::MAX / f
                },
                None => false,
            }
        },
        None => false,
    }
}

/// The value written to `memory.max` for a configured limit: `max`/`infinity` become
/// `max`, plain digits stay, and a `k`, `m` or `g` suffix (optionally followed by `b`,
/// any case) is multiplied out to bytes; an unreadable number before the suffix counts
/// as 0, and anything else is passed on trimmed.
pub fn normalize_memory_max(value: &str) -> (r: String)
    requires
        !memory_max_overflows(value@),
    ensures
        r@ == memory_max_value(value@),
{
    let v = chars_of(value);
    let (a, b) = trim_bounds(v.as_slice(), 0, v.len());
    assert(v@.subrange(0, v@.len() as int) =~= v@);
    let t = &v[a..b];
    if eq_ignore_case(t, "max") || eq_ignore_case(t, "infinity") {
        return str_to_string("max");
    }
    assert(t@.subrange(0, t@.len() as int) =~= t@);
    if all_ascii_digits(t, 0, t.len()) {
        return string_of(t);
    }
    let lower = lower_chars(t);
    match split_size(lower.as_slice()) {
        Some((e, f)) => {
            let (na, nb) = trim_bounds(lower.as_slice(), 0, e);
            assert(lower@.subrange(0, e as int) =~= lower@.take(e as int));
            let n = match parse_u64_range(lower.as_slice(), na, nb) {
                Some(n) => n,
                None => 0,
            };
            assert(n * f <= u64::MAX) by (nonlinear_arith)
                requires
                    n * f == scaled(lower@.take(e as int), f as nat),
                    scaled(lower@.take(e as int), f as nat) <= u64::MAX,
            ;
            u64_to_string(n * f)
        },
        None => string_of(t),
    }
}

/// The text written to `cgroup.subtree_control` to enable `controllers`.
pub open spec fn controller_spec(controllers: Seq<Seq<char>>) -> Seq<char>
    decreases controllers.len(),
{
    if controllers.len() == 0 {
        Seq::empty()
    } else {
        let prev = controller_spec(controllers.drop_last());
        let item = seq!['+'] + controllers.last();
        if prev.len() == 0 {
            item
        } else {
            prev + seq![' '] + item
        }
    }
}

/// `+memory +pids ...` for the controllers to delegate.
pub fn controller_line(controllers: &Vec<String>) -> (r: String)
    ensures
        r@ == controller_spec(strings_view(controllers@)),
{
    let mut spec = String::new();
    let mut i: usize = 0;
    while i < controllers.len()
        invariant
            i <= controllers@.len(),
            spec@ == controller_spec(strings_view(controllers@.take(i as int))),
        decreases controllers.len() - i,
    {
        let ghost prev = spec@;
        assert(strings_view(controllers@.take(i + 1)).drop_last() =~= strings_view(
            controllers@.take(i as int),
        ));
        if !spec.as_str().is_empty() {
            spec.push(' ');
        }
        spec.push('+');
        let more = concat(spec.as_str(), controllers[i].as_str());
        spec = more;
        i = i + 1;
        assert(spec@ =~= controller_spec(strings_view(controllers@.take(i as int))));
    }
    assert(controllers@.take(controllers@.len() as int) =~= controllers@);
    spec
}

} // verus!
