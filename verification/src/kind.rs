//! The five field kinds: bounds, display names and three-letter value names.
use vstd::prelude::*;
use crate::text::upper_all;
use crate::text::upper_byte;

verus! {

/// One of the five positions of an expression.
#[derive(Debug, Copy, Clone, PartialEq, Eq, Structural)]
pub enum FieldKind {
    Minute,
    Hour,
    DayOfMonth,
    Month,
    DayOfWeek,
}

/// The name of month `v`, three upper-case letters.
pub open spec fn month_abbrev(v: int) -> Seq<u8> {
    if v == 1 {
        // JAN
        seq![0x4au8, 0x41u8, 0x4eu8]
    } else if v == 2 {
        // FEB
        seq![0x46u8, 0x45u8, 0x42u8]
    } else if v == 3 {
        // MAR
        seq![0x4du8, 0x41u8, 0x52u8]
    } else if v == 4 {
        // APR
        seq![0x41u8, 0x50u8, 0x52u8]
    } else if v == 5 {
        // MAY
        seq![0x4du8, 0x41u8, 0x59u8]
    } else if v == 6 {
        // JUN
        seq![0x4au8, 0x55u8, 0x4eu8]
    } else if v == 7 {
        // JUL
        seq![0x4au8, 0x55u8, 0x4cu8]
    } else if v == 8 {
        // AUG
        seq![0x41u8, 0x55u8, 0x47u8]
    } else if v == 9 {
        // SEP
        seq![0x53u8, 0x45u8, 0x50u8]
    } else if v == 10 {
        // OCT
        seq![0x4fu8, 0x43u8, 0x54u8]
    } else if v == 11 {
        // NOV
        seq![0x4eu8, 0x4fu8, 0x56u8]
    } else {
        // DEC
        seq![0x44u8, 0x45u8, 0x43u8]
    }
}

/// The name of weekday `v`, counted from Sunday, three upper-case letters.
pub open spec fn weekday_abbrev(v: int) -> Seq<u8> {
    if v == 0 {
        // SUN
        seq![0x53u8, 0x55u8, 0x4eu8]
    } else if v == 1 {
        // MON
        seq![0x4du8, 0x4fu8, 0x4eu8]
    } else if v == 2 {
        // TUE
        seq![0x54u8, 0x55u8, 0x45u8]
    } else if v == 3 {
        // WED
        seq![0x57u8, 0x45u8, 0x44u8]
    } else if v == 4 {
        // THU
        seq![0x54u8, 0x48u8, 0x55u8]
    } else if v == 5 {
        // FRI
        seq![0x46u8, 0x52u8, 0x49u8]
    } else {
        // SAT
        seq![0x53u8, 0x41u8, 0x54u8]
    }
}

impl FieldKind {
    /// Smallest value of the field.
    pub open spec fn spec_min(self) -> u8 {
        match self {
            FieldKind::Minute => 0,
            FieldKind::Hour => 0,
            FieldKind::DayOfMonth => 1,
            FieldKind::Month => 1,
            FieldKind::DayOfWeek => 0,
        }
    }

    /// Greatest value of the field.
    pub open spec fn spec_max(self) -> u8 {
        match self {
            FieldKind::Minute => 59,
            FieldKind::Hour => 23,
            FieldKind::DayOfMonth => 31,
            FieldKind::Month => 12,
            FieldKind::DayOfWeek => 6,
        }
    }

    /// How many values the field has.
    pub open spec fn spec_size(self) -> nat {
        (self.spec_max() - self.spec_min() + 1) as nat
    }

    /// Whether the field's values have names.
    pub open spec fn spec_named(self) -> bool {
        self == FieldKind::Month || self == FieldKind::DayOfWeek
    }

    /// The name under which errors report the field.
    pub open spec fn spec_name(self) -> Seq<char> {
        match self {
            FieldKind::Minute => "Minute"@,
            FieldKind::Hour => "Hour"@,
            FieldKind::DayOfMonth => "Day of Month"@,
            FieldKind::Month => "Month"@,
            FieldKind::DayOfWeek => "Day of Week"@,
        }
    }

    /// Whether `v` is a value of the field.
    pub open spec fn holds(self, v: int) -> bool {
        self.spec_min() <= v <= self.spec_max()
    }

    /// The three-letter name of value `v` of a named field.
    pub open spec fn abbrev(self, v: int) -> Seq<u8> {
        if self == FieldKind::Month {
            month_abbrev(v)
        } else {
            weekday_abbrev(v)
        }
    }

    /// The first value from `v` on whose name is `name`.
    pub open spec fn name_lookup(self, name: Seq<u8>, v: int) -> Option<u8>
        decreases self.spec_max() - v + 1,
    {
        if !self.holds(v) {
            None
        } else if self.abbrev(v) == name {
            Some(v as u8)
        } else {
            self.name_lookup(name, v + 1)
        }
    }

    /// The value that `text` names, letter case aside: `text` has three
    /// bytes and spells the name of a value of this named field.
    pub open spec fn named_value(self, text: Seq<u8>) -> Option<u8> {
        if self.spec_named() && text.len() == 3 {
            self.name_lookup(upper_all(text), self.spec_min() as int)
        } else {
            None
        }
    }

    /// What a successful lookup found.
    pub proof fn lemma_name_lookup(self, name: Seq<u8>, v: int)
        requires
            self.spec_min() <= v,
        ensures
            match self.name_lookup(name, v) {
                Some(found) => v <= found && self.holds(found as int) && self.abbrev(found as int)
                    == name && forall|w: int| v <= w < found ==> self.abbrev(w) != name,
                None => forall|w: int| v <= w <= self.spec_max() ==> self.abbrev(w) != name,
            },
        decreases self.spec_max() - v + 1,
    {
        if self.holds(v) && self.abbrev(v) != name {
            self.lemma_name_lookup(name, v + 1);
        }
    }

    /// Smallest value of the field.
    #[verifier::when_used_as_spec(spec_min)]
    pub fn min(self) -> (r: u8)
        ensures
            r == self.spec_min(),
    {
        match self {
            FieldKind::Minute => 0,
            FieldKind::Hour => 0,
            FieldKind::DayOfMonth => 1,
            FieldKind::Month => 1,
            FieldKind::DayOfWeek => 0,
        }
    }

    /// Greatest value of the field.
    #[verifier::when_used_as_spec(spec_max)]
    pub fn max(self) -> (r: u8)
        ensures
            r == self.spec_max(),
    {
        match self {
            FieldKind::Minute => 59,
            FieldKind::Hour => 23,
            FieldKind::DayOfMonth => 31,
            FieldKind::Month => 12,
            FieldKind::DayOfWeek => 6,
        }
    }

    /// How many values the field has.
    pub fn size(self) -> (r: usize)
        ensures
            r == self.spec_size(),
    {
        (self.max() - self.min()) as usize + 1
    }

    /// Whether the field's values have names.
    #[verifier::when_used_as_spec(spec_named)]
    pub fn named(self) -> (r: bool)
        ensures
            r == self.spec_named(),
    {
        match self {
            FieldKind::Month => true,
            FieldKind::DayOfWeek => true,
            _ => false,
        }
    }

    /// The name under which errors report the field.
    pub fn name(self) -> (r: &'static str)
        ensures
            r@ == self.spec_name(),
    {
        match self {
            FieldKind::Minute => "Minute",
            FieldKind::Hour => "Hour",
            FieldKind::DayOfMonth => "Day of Month",
            FieldKind::Month => "Month",
            FieldKind::DayOfWeek => "Day of Week",
        }
    }

    /// Looks a three-letter name up, letter case aside.
    pub fn value_named(self, text: &[u8]) -> (r: Option<u8>)
        ensures
            r == self.named_value(text@),
            r matches Some(v) ==> self.holds(v as int),
    {
        if !self.named() || text.len() != 3 {
            return None;
        }
        let a = upper_byte(text[0]);
        let b = upper_byte(text[1]);
        let c = upper_byte(text[2]);
        let ghost up = upper_all(text@);
        assert(up =~= seq![a, b, c]);
        let mut v: u8 = self.min();
        while v <= self.max()
            invariant
                self.spec_named(),
                self.spec_min() <= v <= self.spec_max() + 1,
                text@.len() == 3,
                up == upper_all(text@),
                up == seq![a, b, c],
                self.name_lookup(up, self.spec_min() as int) == self.name_lookup(up, v as int),
            decreases self.spec_max() + 1 - v,
        {
            let (x, y, z) = self.letters(v);
            if x == a && y == b && z == c {
                assert(self.abbrev(v as int) =~= up);
                return Some(v);
            }
            assert(self.abbrev(v as int) != up) by {
                if self.abbrev(v as int) == up {
                    assert(up[0] == x && up[1] == y && up[2] == z);
                }
            }
            v += 1;
        }
        None
    }

    /// The three letters of the name of value `v` of a named field.
    pub fn letters(self, v: u8) -> (r: (u8, u8, u8))
        requires
            self.spec_named(),
            self.holds(v as int),
        ensures
            self.abbrev(v as int) == seq![r.0, r.1, r.2],
    {
        match self {
            FieldKind::Month => match v {
                // JAN
                1 => (0x4a, 0x41, 0x4e),
                // FEB
                2 => (0x46, 0x45, 0x42),
                // MAR
                3 => (0x4d, 0x41, 0x52),
                // APR
                4 => (0x41, 0x50, 0x52),
                // MAY
                5 => (0x4d, 0x41, 0x59),
                // JUN
                6 => (0x4a, 0x55, 0x4e),
                // JUL
                7 => (0x4a, 0x55, 0x4c),
                // AUG
                8 => (0x41, 0x55, 0x47),
                // SEP
                9 => (0x53, 0x45, 0x50),
                // OCT
                10 => (0x4f, 0x43, 0x54),
                // NOV
                11 => (0x4e, 0x4f, 0x56),
                // DEC
                _ => (0x44, 0x45, 0x43),
            },
            _ => match v {
                // SUN
                0 => (0x53, 0x55, 0x4e),
                // MON
                1 => (0x4d, 0x4f, 0x4e),
                // TUE
                2 => (0x54, 0x55, 0x45),
                // WED
                3 => (0x57, 0x45, 0x44),
                // THU
                4 => (0x54, 0x48, 0x55),
                // FRI
                5 => (0x46, 0x52, 0x49),
                // SAT
                _ => (0x53, 0x41, 0x54),
            },
        }
    }
}

} // verus!
