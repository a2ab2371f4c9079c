//! The stable tab- and window-identity newtypes.

use vstd::prelude::*;

use crate::text::{chars_of, decimal, digit_char, push_decimal};

verus! {

/// A window's stable identity: the raw address of its live window object, reused
/// as a per-window key. A distinct type from [`TabId`] so the two cannot be
/// transposed.
#[derive(Clone, Copy, PartialEq, Eq, Hash, Debug, Structural)]
pub struct WindowId(u64);

impl WindowId {
    /// The raw value this identity wraps.
    pub closed spec fn spec_raw(self) -> u64 {
        self.0
    }

    /// Wraps the raw identity value the shell derives from a live window.
    pub fn from_raw(raw: u64) -> (id: WindowId)
        ensures
            id.spec_raw() == raw,
    {
        WindowId(raw)
    }

    /// The raw identity value: the registry key and the per-window CSS suffix.
    pub fn raw(self) -> (r: u64)
        ensures
            r == self.spec_raw(),
    {
        self.0
    }

    /// Two identities are equal exactly when their raw values are.
    pub proof fn raw_is_identity(a: WindowId, b: WindowId)
        ensures
            a == b <==> a.spec_raw() == b.spec_raw(),
    {
    }
}

/// A tab's stable identity: an incrementing counter. Only exposed raw at the
/// drag payload and action-target string boundaries.
#[derive(Clone, Copy, PartialEq, Eq, Hash, Debug, Structural)]
pub struct TabId(u64);

impl TabId {
    /// The raw counter value this identity wraps.
    pub closed spec fn spec_raw(self) -> u64 {
        self.0
    }

    /// The raw counter value.
    pub fn raw(self) -> (r: u64)
        ensures
            r == self.spec_raw(),
    {
        self.0
    }

    /// Wraps a raw value read back from a boundary.
    pub fn from_raw(raw: u64) -> (id: TabId)
        ensures
            id.spec_raw() == raw,
    {
        TabId(raw)
    }

    /// The decimal text of the raw value: the action-target string form.
    pub fn to_text(self) -> (s: String)
        ensures
            s@ == decimal(self.spec_raw() as nat),
    {
        let mut s = String::new();
        push_decimal(&mut s, self.0);
        assert(s@ =~= decimal(self.spec_raw() as nat));
        s
    }

    /// Reads back the action-target string form: an optional `+` and then one or
    /// more ASCII digits whose value fits in 64 bits (`u64`'s `FromStr`).
    pub fn parse_text(s: &str) -> (r: Option<TabId>)
        ensures
            match parsed_u64(s@) {
                Some(v) => r matches Some(id) && id.spec_raw() == v,
                None => r is None,
            },
    {
        let cs = chars_of(s);
        let start: usize = if cs.len() > 0 && cs[0] == '+' {
            1
        } else {
            0
        };
        let ghost ds = unsigned_part(s@);
        assert(ds =~= cs@.skip(start as int));
        if start >= cs.len() {
            return None;
        }
        let mut value: u64 = 0;
        let mut i: usize = start;
        while i < cs.len()
            invariant
                start <= i <= cs@.len(),
                cs@ == s@,
                ds == cs@.skip(start as int),
                ds == unsigned_part(s@),
                all_digits(ds.take(i - start)),
                value as int == digits_value(ds.take(i - start)),
            decreases cs@.len() - i,
        {
            let c = cs[i];
            proof {
                assert(ds.take(i - start + 1).drop_last() =~= ds.take(i - start));
                assert(ds.take(i - start + 1).last() == c);
            }
            if !((c as u32) >= 48 && (c as u32) <= 57) {
                proof {
                    lemma_not_all_digits(ds, (i - start) as int);
                }
                return None;
            }
            let d: u64 = ((c as u32) - 48) as u64;
            match value.checked_mul(10) {
                None => {
                    proof {
                        lemma_digits_value_grows(ds, (i - start + 1) as int);
                    }
                    return None;
                },
                Some(t) => match t.checked_add(d) {
                    None => {
                        proof {
                            lemma_digits_value_grows(ds, (i - start + 1) as int);
                        }
                        return None;
                    },
                    Some(v) => {
                        value = v;
                    },
                },
            }
            i = i + 1;
        }
        assert(ds.take(ds.len() as int) =~= ds);
        Some(TabId(value))
    }

    /// Two identities are equal exactly when their raw values are.
    pub proof fn raw_is_identity(a: TabId, b: TabId)
        ensures
            a == b <==> a.spec_raw() == b.spec_raw(),
    {
    }
}

impl core::str::FromStr for TabId {
    type Err = ();

    fn from_str(s: &str) -> (r: Result<TabId, ()>)
        ensures
            match parsed_u64(s@) {
                Some(v) => r matches Ok(id) && id.spec_raw() == v,
                None => r is Err,
            },
    {
        match TabId::parse_text(s) {
            Some(id) => Ok(id),
            None => Err(()),
        }
    }
}

/// `c` is an ASCII decimal digit.
pub open spec fn is_digit(c: char) -> bool {
    48 <= (c as u32) <= 57
}

/// Every character of `ds` is an ASCII decimal digit.
pub open spec fn all_digits(ds: Seq<char>) -> bool {
    forall|i: int| 0 <= i < ds.len() ==> #[trigger] is_digit(ds[i])
}

/// The value of a run of decimal digits, most significant first.
pub open spec fn digits_value(ds: Seq<char>) -> int
    decreases ds.len(),
{
    if ds.len() == 0 {
        0
    } else {
        10 * digits_value(ds.drop_last()) + ((ds.last() as u32) - 48)
    }
}

/// The text after an optional leading `+`.
pub open spec fn unsigned_part(s: Seq<char>) -> Seq<char> {
    if s.len() > 0 && s[0] == '+' {
        s.drop_first()
    } else {
        s
    }
}

/// The value `u64`'s `FromStr` reads from `s`, if it accepts it: an optional
/// `+`, then at least one digit, nothing else, and a value that fits.
pub open spec fn parsed_u64(s: Seq<char>) -> Option<u64> {
    let ds = unsigned_part(s);
    if ds.len() > 0 && all_digits(ds) && digits_value(ds) <= u64::MAX {
        Some(digits_value(ds) as u64)
    } else {
        None
    }
}

proof fn lemma_not_all_digits(ds: Seq<char>, k: int)
    requires
        0 <= k < ds.len(),
        !is_digit(ds[k]),
    ensures
        !all_digits(ds),
{
}

/// Digits only add to a value: a prefix of digits never outweighs the whole.
proof fn lemma_digits_value_grows(ds: Seq<char>, k: int)
    requires
        0 <= k <= ds.len(),
    ensures
        all_digits(ds) ==> digits_value(ds.take(k)) <= digits_value(ds),
    decreases ds.len() - k,
{
    if all_digits(ds) && k < ds.len() {
        lemma_digits_value_grows(ds, k + 1);
        let p = ds.take(k + 1);
        assert(p.drop_last() =~= ds.take(k));
        assert(is_digit(p.last()));
        assert forall|i: int| 0 <= i < k implies #[trigger] is_digit(ds.take(k)[i]) by {
            assert(ds.take(k)[i] == ds[i]);
        }
        lemma_digits_value_nonneg(ds.take(k));
    } else if k == ds.len() {
        assert(ds.take(k) =~= ds);
    }
}

proof fn lemma_digits_value_nonneg(ds: Seq<char>)
    requires
        all_digits(ds),
    ensures
        digits_value(ds) >= 0,
    decreases ds.len(),
{
    if ds.len() > 0 {
        assert(is_digit(ds.last()));
        lemma_digits_value_nonneg(ds.drop_last());
    }
}

proof fn lemma_decimal_reads_back(n: nat)
    ensures
        decimal(n).len() > 0,
        all_digits(decimal(n)),
        digits_value(decimal(n)) == n,
        decimal(n)[0] != '+',
    decreases n,
{
    assert((digit_char(n % 10) as u32) == n % 10 + 48);
    if n < 10 {
        assert(decimal(n) == seq![digit_char(n)]);
        assert(decimal(n).drop_last() =~= Seq::<char>::empty());
        assert(digits_value(Seq::<char>::empty()) == 0);
        assert(decimal(n).last() == digit_char(n));
        assert(n % 10 == n);
    } else {
        lemma_decimal_reads_back(n / 10);
        let p = decimal(n / 10);
        let d = decimal(n);
        assert(d == p.push(digit_char(n % 10)));
        assert(d.drop_last() =~= p);
        assert forall|i: int| 0 <= i < d.len() implies #[trigger] is_digit(d[i]) by {
            if i < p.len() {
                assert(d[i] == p[i]);
                assert(is_digit(p[i]));
            }
        }
        assert(d[0] == p[0]);
        assert(n == 10 * (n / 10) + n % 10);
        assert(d.last() == digit_char(n % 10));
        assert(digits_value(d) == 10 * digits_value(p) + ((d.last() as u32) - 48));
    }
}

/// A tab identity read back from its action-target string is the identity
/// itself: the decimal text of every raw value parses to that value.
pub proof fn law_tab_text_round_trips(id: TabId)
    ensures
        parsed_u64(decimal(id.spec_raw() as nat)) == Some(id.spec_raw()),
{
    lemma_decimal_reads_back(id.spec_raw() as nat);
    assert(unsigned_part(decimal(id.spec_raw() as nat)) == decimal(id.spec_raw() as nat));
}

} // verus!
