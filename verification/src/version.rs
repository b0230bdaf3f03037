//! Version values: dotted numeric components with an optional qualifier.
//!
//! The text form is `1.2.3` or `1.2.3-qualifier`. Everything behind the first
//! `-` is the qualifier, kept as it is written. What stands before it is cut
//! at each `.` into numerals.

use crate::decimal::{
    append_decimal, decimal_digits, is_digit, lemma_decimal_digits, lemma_numeral_of_digits,
    numeral_value, parse_numeral,
};
use crate::text::{
    find, first_index, join, lacks, lemma_first_index_concat, lemma_join_lacks, lemma_join_push,
    lemma_split_join, lemma_split_nonempty, split, to_chars,
};
use vstd::prelude::*;

verus! {

/// A version: numeric components and an optional qualifier ("snapshot").
#[derive(Debug)]
pub struct Version {
    pub components: Vec<u32>,
    pub snapshot: Option<String>,
}

/// The mathematical value of a [`Version`].
pub struct VersionView {
    pub components: Seq<u32>,
    pub snapshot: Option<Seq<char>>,
}

impl View for Version {
    type V = VersionView;

    open spec fn view(&self) -> VersionView {
        VersionView {
            components: self.components@,
            snapshot: match self.snapshot {
                Some(s) => Some(s@),
                None => None,
            },
        }
    }
}

impl VersionView {
    /// Whether this is a version in full: it has at least one component.
    pub open spec fn well_formed(self) -> bool {
        self.components.len() >= 1
    }
}

/// A text that is not a version.
#[derive(Debug, Clone, Copy, PartialEq, Eq)]
pub struct ParseError;

/// What stands before the first `-` of a version text.
pub open spec fn base_of(text: Seq<char>) -> Seq<char> {
    text.take(first_index(text, '-'))
}

/// What stands behind the first `-` of a version text, if there is a `-`.
pub open spec fn qualifier_of(text: Seq<char>) -> Option<Seq<char>> {
    let cut = first_index(text, '-');
    if 0 <= cut < text.len() {
        Some(text.skip(cut + 1))
    } else {
        None
    }
}

/// The numbers that a dotted base denotes: it is cut at each `.`, and every
/// part must be a numeral. There is no value where some part is none.
pub open spec fn components_of(base: Seq<char>) -> Option<Seq<u32>> {
    let parts = split(base, '.');
    if forall|i: int| 0 <= i < parts.len() ==> numeral_value(#[trigger] parts[i]) is Some {
        Some(Seq::new(parts.len(), |i: int| numeral_value(parts[i]).unwrap()))
    } else {
        None
    }
}

/// The version that a text denotes, if it denotes one.
pub open spec fn parse_spec(text: Seq<char>) -> Option<VersionView> {
    match components_of(base_of(text)) {
        Some(components) => Some(VersionView { components, snapshot: qualifier_of(text) }),
        None => None,
    }
}

/// The numerals of the components, in order.
pub open spec fn numerals_of(components: Seq<u32>) -> Seq<Seq<char>> {
    Seq::new(components.len(), |i: int| decimal_digits(components[i] as nat))
}

/// The text of a version: the components in base ten with a `.` between
/// neighbours, then, where there is a qualifier, `-` and the qualifier.
pub open spec fn render_spec(version: VersionView) -> Seq<char> {
    let base = join(numerals_of(version.components), '.');
    match version.snapshot {
        Some(qualifier) => base + seq!['-'] + qualifier,
        None => base,
    }
}

/// Reads the dotted numerals in `chars[..cut]`.
fn parse_components(chars: &Vec<char>, cut: usize) -> (components: Option<Vec<u32>>)
    requires
        cut <= chars.len(),
    ensures
        match components {
            Some(c) => components_of(chars@.take(cut as int)) == Some(c@),
            None => components_of(chars@.take(cut as int)) is None,
        },
{
    let ghost base = chars@.take(cut as int);
    let ghost mut done: Seq<Seq<char>> = Seq::empty();
    let mut components: Vec<u32> = Vec::new();
    let mut start: usize = 0;
    assert(base.skip(0) =~= base);
    loop
        invariant
            start <= cut <= chars.len(),
            base == chars@.take(cut as int),
            split(base, '.') == done + split(base.skip(start as int), '.'),
            components@.len() == done.len(),
            forall|i: int|
                0 <= i < done.len() ==> numeral_value(#[trigger] done[i]) == Some(components@[i]),
        decreases cut - start,
    {
        let end = find(chars, '.', start, cut);
        let value = parse_numeral(chars, start, end);
        let ghost rest = base.skip(start as int);
        let ghost part = rest.take(end - start);
        let ghost parts = split(base, '.');
        proof {
            assert(rest =~= chars@.subrange(start as int, cut as int));
            assert(part =~= chars@.subrange(start as int, end as int));
            assert(split(rest, '.')[0] == part);
            assert(parts[done.len() as int] == part);
        }
        match value {
            None => {
                return None;
            },
            Some(v) => {
                components.push(v);
                proof {
                    done = done.push(part);
                }
                if end == cut {
                    proof {
                        assert(parts =~= done);
                        assert(components@ =~= Seq::new(
                            parts.len(),
                            |i: int| numeral_value(parts[i]).unwrap(),
                        ));
                    }
                    return Some(components);
                }
                proof {
                    assert(rest.skip(end - start + 1) =~= base.skip(end + 1));
                    assert(parts =~= done + split(base.skip(end + 1), '.'));
                }
                start = end + 1;
            },
        }
    }
}

impl Version {
    /// Reads a version from its text.
    ///
    /// The text is cut at its first `-`: what follows is the qualifier, taken
    /// as it stands. What precedes is cut at each `.`; every part must be a
    /// numeral, that is an optional `+` and one or more ASCII digits, with a
    /// value of at most `u32::MAX`. A text with a part that is none, an empty
    /// part among them, is refused.
    pub fn from_str(s: &str) -> (r: Result<Version, ParseError>)
        ensures
            match r {
                Ok(version) => parse_spec(s@) == Some(version@) && version@.well_formed(),
                Err(_) => parse_spec(s@) is None,
            },
    {
        proof {
            law_parsed_well_formed(s@);
        }
        let chars = to_chars(s);
        let n = chars.len();
        let cut = find(&chars, '-', 0, n);
        assert(chars@.subrange(0, n as int) =~= s@);
        let snapshot = if cut < n {
            Some(s.substring_char(cut + 1, n).to_owned())
        } else {
            None
        };
        proof {
            if cut < n {
                assert(s@.subrange(cut + 1, n as int) =~= s@.skip(cut + 1));
            }
        }
        match parse_components(&chars, cut) {
            Some(components) => Ok(Version { components, snapshot }),
            None => Err(ParseError),
        }
    }

    /// Writes the version as text: the components in base ten with a `.`
    /// between neighbours, then `-` and the qualifier where there is one.
    /// A version without components has nothing before the qualifier.
    pub fn to_string(&self) -> (text: String)
        ensures
            text@ == render_spec(self@),
    {
        let ghost numerals = numerals_of(self.components@);
        let mut text = String::new();
        let mut i: usize = 0;
        assert(numerals.take(0) =~= Seq::<Seq<char>>::empty());
        while i < self.components.len()
            invariant
                i <= self.components.len(),
                numerals == numerals_of(self.components@),
                text@ == join(numerals.take(i as int), '.'),
            decreases self.components.len() - i,
        {
            let ghost before = numerals.take(i as int);
            if i > 0 {
                proof {
                    reveal_strlit(".");
                    lemma_join_push(before, numerals[i as int], '.');
                }
                text.append(".");
            }
            append_decimal(&mut text, self.components[i]);
            proof {
                assert(numerals.take(i + 1) =~= before.push(numerals[i as int]));
                assert(text@ =~= join(numerals.take(i + 1), '.'));
            }
            i += 1;
        }
        assert(numerals.take(i as int) =~= numerals);
        match &self.snapshot {
            Some(qualifier) => {
                proof {
                    reveal_strlit("-");
                }
                text.append("-");
                text.append(qualifier.as_str());
                assert(text@ =~= render_spec(self@));
            },
            None => {},
        }
        text
    }
}

/// The numeral written for a number holds nothing but digits.
proof fn lemma_numerals_lack(components: Seq<u32>, c: char)
    requires
        !is_digit(c),
    ensures
        forall|i: int|
            0 <= i < components.len() ==> lacks(#[trigger] numerals_of(components)[i], c),
{
    assert forall|i: int| 0 <= i < components.len() implies lacks(
        #[trigger] numerals_of(components)[i],
        c,
    ) by {
        lemma_decimal_digits(components[i] as nat);
    }
}

/// What is read from a text is a version in full.
pub proof fn law_parsed_well_formed(text: Seq<char>)
    ensures
        parse_spec(text) matches Some(version) ==> version.well_formed(),
{
    lemma_split_nonempty(base_of(text), '.');
}

/// Every version in full is read back from its own text.
pub proof fn law_render_then_parse(version: VersionView)
    requires
        version.well_formed(),
    ensures
        parse_spec(render_spec(version)) == Some(version),
{
    let numerals = numerals_of(version.components);
    let base = join(numerals, '.');
    let text = render_spec(version);
    let tail = match version.snapshot {
        Some(qualifier) => seq!['-'] + qualifier,
        None => Seq::empty(),
    };
    assert(text =~= base + tail);
    lemma_numerals_lack(version.components, '-');
    lemma_join_lacks(numerals, '.', '-');
    lemma_first_index_concat(base, tail, '-');
    assert(base_of(text) =~= base);
    match version.snapshot {
        Some(qualifier) => {
            assert(text.skip(base.len() as int + 1) =~= qualifier);
        },
        None => {},
    }
    assert(qualifier_of(text) == version.snapshot);
    lemma_numerals_lack(version.components, '.');
    lemma_split_join(numerals, '.');
    assert forall|i: int| 0 <= i < numerals.len() implies numeral_value(#[trigger] numerals[i])
        == Some(version.components[i]) by {
        lemma_numeral_of_digits(version.components[i]);
    }
    assert(components_of(base).unwrap() =~= version.components);
}

/// A version that was read from a text is read again from what it renders to:
/// writing a parsed version out and parsing that gives the same version.
pub proof fn law_parse_render_parse(text: Seq<char>)
    requires
        parse_spec(text) is Some,
    ensures
        parse_spec(render_spec(parse_spec(text).unwrap())) == parse_spec(text),
{
    law_parsed_well_formed(text);
    law_render_then_parse(parse_spec(text).unwrap());
}

} // verus!
