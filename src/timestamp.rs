use vstd::prelude::*;

verus! {

/// Seconds of the earliest instant that chrono's `DateTime<Utc>` holds
/// (1 January of year -262143, midnight).
pub const MIN_SECS: i64 = -8334601228800;

/// Seconds of the last whole second that chrono's `DateTime<Utc>` holds
/// (31 December of year 262142, 23:59:59).
pub const MAX_SECS: i64 = 8210266876799;

/// An instant in UTC: whole seconds since the Unix epoch and the nanoseconds
/// past that second.
pub struct Timestamp {
    secs: i64,
    nanos: u32,
}

/// An instant that chrono can hold, leap seconds left out.
pub open spec fn in_range(secs: int, nanos: int) -> bool {
    MIN_SECS <= secs <= MAX_SECS && 0 <= nanos < 1_000_000_000
}

/// The label `"%a (%y-%m-%d)"` that chrono writes for the UTC day of an instant,
/// such as `"Mon (24-03-04)"`.
pub uninterp spec fn date_label_of(secs: int, nanos: int) -> Seq<char>;

impl Timestamp {
    #[verifier::type_invariant]
    spec fn inv(self) -> bool {
        in_range(self.secs as int, self.nanos as int)
    }

    pub closed spec fn spec_secs(self) -> int {
        self.secs as int
    }

    pub closed spec fn spec_nanos(self) -> int {
        self.nanos as int
    }

    /// The calendar label of this instant's day.
    pub open spec fn label(self) -> Seq<char> {
        date_label_of(self.spec_secs(), self.spec_nanos())
    }

    /// The instant `secs` seconds and `nanos` nanoseconds after the epoch, if
    /// chrono can represent it.
    pub fn new(secs: i64, nanos: u32) -> (r: Option<Timestamp>)
        ensures
            r.is_some() <==> in_range(secs as int, nanos as int),
            r matches Some(t) ==> t.spec_secs() == secs && t.spec_nanos() == nanos,
    {
        if MIN_SECS <= secs && secs <= MAX_SECS && nanos < 1_000_000_000 {
            Some(Timestamp { secs, nanos })
        } else {
            None
        }
    }

    pub fn secs(&self) -> (r: i64)
        ensures
            r == self.spec_secs(),
    {
        self.secs
    }

    pub fn nanos(&self) -> (r: u32)
        ensures
            r == self.spec_nanos(),
    {
        self.nanos
    }

    /// The day label of this instant, as chrono formats it.
    pub fn date_label(&self) -> (r: String)
        ensures
            r@ == self.label(),
            r@.len() == 14,
    {
        proof {
            use_type_invariant(self);
        }
        format_day(self.secs, self.nanos)
    }
}

impl Clone for Timestamp {
    fn clone(&self) -> (r: Timestamp)
        ensures
            r == *self,
    {
        proof {
            use_type_invariant(self);
        }
        Timestamp { secs: self.secs, nanos: self.nanos }
    }
}

/// Relies on chrono's `DateTime::<Utc>::from_timestamp`, which returns `Some`
/// for every instant in range, and on its `format("%a (%y-%m-%d)")`: a
/// three-letter weekday, a space, and the two-digit year, month and day in
/// parentheses, always fourteen characters.
#[verifier::external_body]
fn format_day(secs: i64, nanos: u32) -> (r: String)
    requires
        in_range(secs as int, nanos as int),
    ensures
        r@ == date_label_of(secs as int, nanos as int),
        r@.len() == 14,
{
    chrono::DateTime::<chrono::Utc>::from_timestamp(secs, nanos).unwrap().format(
        "%a (%y-%m-%d)",
    ).to_string()
}

} // verus!
