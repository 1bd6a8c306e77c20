use crate::ring_buffer::StorageType;
use crate::strutil::str_eq;
use vstd::prelude::*;

verus! {

/// Sort criterion for the grouped table.
#[derive(Clone, Copy, PartialEq, Eq, Structural, Debug)]
pub enum Order {
    Requests,
    Size,
}

/// Grouping key selector for the window partition.
#[derive(Clone, Copy, PartialEq, Eq, Structural, Debug)]
pub enum GroupBy {
    IpAddress,
    Referer,
    StatusCode,
    URI,
    Username,
}

/// A configuration value that cannot be acted on.
#[derive(Clone, Copy, PartialEq, Eq, Structural, Debug)]
pub enum ConfigError {
    EmptyBufferSize,
    InvalidBufferSize,
}

pub open spec fn spec_order_of(s: Seq<char>) -> Order {
    if s[0] == 'S' || s[0] == 's' {
        Order::Size
    } else {
        Order::Requests
    }
}

impl Order {
    /// Only a leading `S`/`s` selects ordering by size; everything else is
    /// taken as ordering by request count.
    pub fn from_str(input: &str) -> (r: Order)
        requires
            input@.len() > 0,
        ensures
            r == spec_order_of(input@),
    {
        let c = input.get_char(0);
        if c == 'S' || c == 's' {
            Order::Size
        } else {
            Order::Requests
        }
    }
}

pub open spec fn spec_group_by_of(s: Seq<char>) -> GroupBy {
    if s == "ip"@ {
        GroupBy::IpAddress
    } else if s == "referer"@ || s == "referrer"@ {
        GroupBy::Referer
    } else if s == "status"@ {
        GroupBy::StatusCode
    } else if s == "username"@ {
        GroupBy::Username
    } else {
        GroupBy::URI
    }
}

impl GroupBy {
    /// Named selectors map to their mode; anything else falls back to
    /// grouping by URI.
    pub fn from_str(input: &str) -> (r: GroupBy)
        ensures
            r == spec_group_by_of(input@),
    {
        if str_eq(input, "ip") {
            GroupBy::IpAddress
        } else if str_eq(input, "referer") || str_eq(input, "referrer") {
            GroupBy::Referer
        } else if str_eq(input, "status") {
            GroupBy::StatusCode
        } else if str_eq(input, "username") {
            GroupBy::Username
        } else {
            GroupBy::URI
        }
    }

    /// Short column label for the table header.
    pub fn label(&self) -> (r: &'static str)
        ensures
            *self == GroupBy::IpAddress ==> r@ == "IP"@,
            *self == GroupBy::Referer ==> r@ == "REFERER"@,
            *self == GroupBy::StatusCode ==> r@ == "CODE"@,
            *self == GroupBy::URI ==> r@ == "URI"@,
            *self == GroupBy::Username ==> r@ == "USERNAME"@,
    {
        match self {
            GroupBy::IpAddress => "IP",
            GroupBy::Referer => "REFERER",
            GroupBy::StatusCode => "CODE",
            GroupBy::URI => "URI",
            GroupBy::Username => "USERNAME",
        }
    }
}

pub open spec fn is_digit(c: char) -> bool {
    '0' <= c && c <= '9'
}

pub open spec fn digit_val(c: char) -> int {
    c as int - '0' as int
}

pub open spec fn is_unit_suffix(c: char) -> bool {
    c == 's' || c == 'm' || c == 'h' || c == 'd'
}

/// Seconds per unit named by a size suffix.
pub open spec fn unit_mult(c: char) -> int {
    if c == 's' {
        1
    } else if c == 'm' {
        60
    } else if c == 'h' {
        3600
    } else if c == 'd' {
        86400
    } else {
        1
    }
}

/// The size text with every trailing unit suffix character removed.
pub open spec fn trim_units(s: Seq<char>) -> Seq<char>
    decreases s.len(),
{
    if s.len() > 0 && is_unit_suffix(s.last()) {
        trim_units(s.drop_last())
    } else {
        s
    }
}

pub open spec fn all_digits(s: Seq<char>) -> bool {
    forall|i: int| 0 <= i < s.len() ==> is_digit(s[i])
}

/// Value of a decimal digit string, most significant digit first.
pub open spec fn digits_val(s: Seq<char>) -> int
    decreases s.len(),
{
    if s.len() == 0 {
        0
    } else {
        digits_val(s.drop_last()) * 10 + digit_val(s.last())
    }
}

/// Meaning of a buffer-size text: a digit string, optionally followed by
/// unit suffix characters, the last character of the text deciding the
/// unit.  `None` when the text does not name a representable policy.
pub open spec fn size_spec(s: Seq<char>) -> Option<StorageType> {
    let digits = trim_units(s);
    if digits.len() == 0 || !all_digits(digits) || digits_val(digits) > u64::MAX {
        None
    } else if is_unit_suffix(s.last()) {
        if digits_val(digits) * unit_mult(s.last()) > u64::MAX {
            None
        } else {
            Some(StorageType::Timed((digits_val(digits) * unit_mult(s.last())) as u64))
        }
    } else {
        Some(StorageType::Requests(digits_val(digits) as u64))
    }
}

proof fn lemma_digits_val_nonneg(s: Seq<char>)
    requires
        all_digits(s),
    ensures
        digits_val(s) >= 0,
    decreases s.len(),
{
    if s.len() > 0 {
        assert(all_digits(s.drop_last())) by {
            assert(forall|i: int| 0 <= i < s.len() - 1 ==> s.drop_last()[i] == s[i]);
        }
        lemma_digits_val_nonneg(s.drop_last());
        assert(is_digit(s.last()));
    }
}

/// A digit string is worth at least any of its prefixes.
proof fn lemma_digits_val_prefix_le(s: Seq<char>, k: int)
    requires
        all_digits(s),
        0 <= k <= s.len(),
    ensures
        digits_val(s.subrange(0, k)) <= digits_val(s),
    decreases s.len() - k,
{
    if k < s.len() {
        lemma_digits_val_prefix_le(s, k + 1);
        let shorter = s.subrange(0, k);
        let longer = s.subrange(0, k + 1);
        assert(longer.drop_last() =~= shorter);
        assert(longer.last() == s[k]);
        assert(all_digits(shorter)) by {
            assert(forall|i: int| 0 <= i < k ==> shorter[i] == s[i]);
        }
        lemma_digits_val_nonneg(shorter);
        assert(is_digit(s[k]));
        assert(digits_val(longer) == digits_val(shorter) * 10 + digit_val(s[k]));
    } else {
        assert(s.subrange(0, k) =~= s);
    }
}

/// If everything from `end` on is a unit suffix and the character just
/// before `end` is not, trimming stops exactly at `end`.
proof fn lemma_trim_units_at(s: Seq<char>, end: int)
    requires
        0 <= end <= s.len(),
        forall|j: int| end <= j < s.len() ==> is_unit_suffix(s[j]),
        end == 0 || !is_unit_suffix(s[end - 1]),
    ensures
        trim_units(s) =~= s.subrange(0, end),
    decreases s.len(),
{
    if s.len() > 0 && is_unit_suffix(s.last()) {
        assert(end < s.len());
        let shorter = s.drop_last();
        assert(forall|j: int| end <= j < shorter.len() ==> shorter[j] == s[j]);
        assert(end == 0 || shorter[end - 1] == s[end - 1]);
        lemma_trim_units_at(shorter, end);
        assert(shorter.subrange(0, end) =~= s.subrange(0, end));
    } else {
        assert(end == s.len()) by {
            if end < s.len() {
                assert(is_unit_suffix(s[s.len() - 1]));
            }
        }
        assert(s.subrange(0, end) =~= s);
    }
}

fn unit_suffix_at(s: &str, i: usize) -> (r: bool)
    requires
        i < s@.len(),
    ensures
        r == is_unit_suffix(s@[i as int]),
{
    let c = s.get_char(i);
    c == 's' || c == 'm' || c == 'h' || c == 'd'
}

/// Parse a buffer-size text into an eviction policy, exactly as
/// `size_spec` reads it.
fn parse_size(s: &str) -> (r: Result<StorageType, ConfigError>)
    ensures
        match r {
            Ok(st) => size_spec(s@) == Some(st),
            Err(e) => {
                &&& size_spec(s@) is None
                &&& (e == ConfigError::EmptyBufferSize <==> s@.len() == 0)
                &&& (e == ConfigError::InvalidBufferSize <==> s@.len() > 0)
            },
        },
{
    let n = s.unicode_len();
    if n == 0 {
        return Err(ConfigError::EmptyBufferSize);
    }
    let mut end: usize = n;
    while end > 0 && unit_suffix_at(s, end - 1)
        invariant
            end <= n,
            n == s@.len(),
            forall|j: int| end <= j < n ==> is_unit_suffix(s@[j]),
        decreases end,
    {
        end = end - 1;
    }
    proof {
        lemma_trim_units_at(s@, end as int);
    }
    let ghost digits = s@.subrange(0, end as int);
    if end == 0 {
        return Err(ConfigError::InvalidBufferSize);
    }
    let mut acc: u64 = 0;
    let mut i: usize = 0;
    while i < end
        invariant
            i <= end <= n,
            n == s@.len(),
            digits == s@.subrange(0, end as int),
            trim_units(s@) == digits,
            all_digits(s@.subrange(0, i as int)),
            acc == digits_val(s@.subrange(0, i as int)),
        decreases end - i,
    {
        let ghost seen = s@.subrange(0, i as int);
        let c = s.get_char(i);
        proof {
            assert(s@.subrange(0, i + 1).drop_last() =~= seen);
            assert(s@.subrange(0, i + 1).last() == s@[i as int]);
        }
        if !(c >= '0' && c <= '9') {
            proof {
                assert(!is_digit(digits[i as int]));
            }
            return Err(ConfigError::InvalidBufferSize);
        }
        let d: u64 = (c as u32 - '0' as u32) as u64;
        let next = match acc.checked_mul(10) {
            Some(x) => x.checked_add(d),
            None => None,
        };
        match next {
            Some(x) => {
                acc = x;
            },
            None => {
                proof {
                    if all_digits(digits) {
                        assert(digits_val(s@.subrange(0, i + 1)) > u64::MAX);
                        assert(s@.subrange(0, i + 1) =~= digits.subrange(0, i + 1));
                        lemma_digits_val_prefix_le(digits, i + 1);
                    }
                }
                return Err(ConfigError::InvalidBufferSize);
            },
        }
        i = i + 1;
    }
    proof {
        assert(s@.subrange(0, end as int) == digits);
        assert(acc == digits_val(digits));
        assert(all_digits(digits));
        lemma_digits_val_nonneg(digits);
    }
    let suffix = s.get_char(n - 1);
    proof {
        assert(s@.last() == s@[n - 1]);
    }
    let mult: u64 = if suffix == 's' {
        1
    } else if suffix == 'm' {
        60
    } else if suffix == 'h' {
        3600
    } else if suffix == 'd' {
        86400
    } else {
        proof {
            assert(!is_unit_suffix(s@.last()));
        }
        return Ok(StorageType::Requests(acc));
    };
    proof {
        assert(is_unit_suffix(s@.last()));
        assert(mult == unit_mult(s@.last()));
    }
    match acc.checked_mul(mult) {
        Some(total) => Ok(StorageType::Timed(total)),
        None => Err(ConfigError::InvalidBufferSize),
    }
}

/// Runtime-adjustable configuration shared by the engine's consumers.
/// `interval_ms` is the render interval in milliseconds.
#[derive(Clone, Debug)]
pub struct Options {
    pub interval_ms: u64,
    pub order: Order,
    pub group: GroupBy,
    pub buffer_size: String,
}

impl Options {
    /// An empty buffer-size text is rejected up front so that an invalid
    /// retention policy never reaches the engine.
    pub fn new(interval_ms: u64, order: Order, group: GroupBy, buffer_size: String) -> (r: Result<
        Options,
        ConfigError,
    >)
        ensures
            match r {
                Ok(o) => {
                    &&& buffer_size@.len() > 0
                    &&& o.interval_ms == interval_ms
                    &&& o.order == order
                    &&& o.group == group
                    &&& o.buffer_size == buffer_size
                },
                Err(e) => {
                    &&& e == ConfigError::EmptyBufferSize
                    &&& buffer_size@.len() == 0
                },
            },
    {
        if buffer_size.as_str().unicode_len() == 0 {
            return Err(ConfigError::EmptyBufferSize);
        }
        Ok(Options { interval_ms, order, group, buffer_size })
    }

    /// Flip the table sort between request count and byte size.
    pub fn toggle_sort(&mut self)
        ensures
            final(self).order == (if old(self).order == Order::Requests {
                Order::Size
            } else {
                Order::Requests
            }),
            final(self).group == old(self).group,
            final(self).interval_ms == old(self).interval_ms,
            final(self).buffer_size == old(self).buffer_size,
    {
        self.order = match self.order {
            Order::Requests => Order::Size,
            Order::Size => Order::Requests,
        };
    }

    /// Advance the group key along the fixed cycle
    /// ip -> referer -> status -> uri -> username -> ip and hand the new
    /// key back so the caller can regroup the shared window.
    pub fn toggle_group(&mut self) -> (g: GroupBy)
        ensures
            final(self).group == (match old(self).group {
                GroupBy::IpAddress => GroupBy::Referer,
                GroupBy::Referer => GroupBy::StatusCode,
                GroupBy::StatusCode => GroupBy::URI,
                GroupBy::URI => GroupBy::Username,
                GroupBy::Username => GroupBy::IpAddress,
            }),
            g == final(self).group,
            final(self).order == old(self).order,
            final(self).interval_ms == old(self).interval_ms,
            final(self).buffer_size == old(self).buffer_size,
    {
        self.group = match self.group {
            GroupBy::IpAddress => GroupBy::Referer,
            GroupBy::Referer => GroupBy::StatusCode,
            GroupBy::StatusCode => GroupBy::URI,
            GroupBy::URI => GroupBy::Username,
            GroupBy::Username => GroupBy::IpAddress,
        };
        self.group
    }

    /// Read the buffer-size text as the current eviction policy; a runtime
    /// edit of the text takes effect the next time this is called.
    pub fn storage_type(&self) -> (r: Result<StorageType, ConfigError>)
        ensures
            match r {
                Ok(st) => size_spec(self.buffer_size@) == Some(st),
                Err(e) => {
                    &&& size_spec(self.buffer_size@) is None
                    &&& (e == ConfigError::EmptyBufferSize <==> self.buffer_size@.len() == 0)
                    &&& (e == ConfigError::InvalidBufferSize <==> self.buffer_size@.len() > 0)
                },
            },
    {
        parse_size(self.buffer_size.as_str())
    }
}

} // verus!
