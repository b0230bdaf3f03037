//! How deep the elements of an XML text are nested at most.
//!
//! The count is taken by reading the text once, without a parser: markup is
//! told from text, and an element that opens is counted until it closes. On
//! a text that is no XML the count may be too high; it is never lower than
//! the number of elements that a parser has open at any point up to where
//! it gives up.

use vstd::prelude::*;

verus! {

/// What the reader is in the middle of.
#[derive(Debug, Clone, Copy, PartialEq, Eq)]
pub enum Mode {
    /// Between tags.
    Content,
    /// In the start tag of an element, outside its attribute values.
    Tag,
    /// In an attribute value that ends with the given quote.
    Quoted(char),
    /// In a comment.
    Comment,
    /// In a `CDATA` section.
    CData,
    /// In a processing instruction.
    Instruction,
    /// Behind something that is no XML.
    Refused,
}

/// A point of the reading: the position in the text, what the reader is in
/// the middle of, and the number of elements that are open.
pub struct Reading {
    pub at: int,
    pub mode: Mode,
    pub open: nat,
}

/// `<!--`, which starts a comment.
pub open spec fn comment_start() -> Seq<char> {
    seq!['<', '!', '-', '-']
}

/// `-->`, which ends a comment.
pub open spec fn comment_end() -> Seq<char> {
    seq!['-', '-', '>']
}

/// `<![CDATA[`, which starts a `CDATA` section.
pub open spec fn cdata_start() -> Seq<char> {
    seq!['<', '!', '[', 'C', 'D', 'A', 'T', 'A', '[']
}

/// `]]>`, which ends a `CDATA` section.
pub open spec fn cdata_end() -> Seq<char> {
    seq![']', ']', '>']
}

/// Whether `text` holds `word` at position `at`.
pub open spec fn holds_at(text: Seq<char>, at: int, word: Seq<char>) -> bool {
    &&& 0 <= at
    &&& at + word.len() <= text.len()
    &&& forall|k: int| 0 <= k < word.len() ==> text[at + k] == word[k]
}

/// One less, and 0 of 0.
pub open spec fn less_one(n: nat) -> nat {
    if n > 0 {
        (n - 1) as nat
    } else {
        0
    }
}

/// The point that follows `from` in the reading of `text`, for a position
/// `from.at` of the text.
pub open spec fn step(text: Seq<char>, from: Reading) -> Reading {
    let at = from.at;
    let c = text[at];
    let on = Reading { at: at + 1, mode: from.mode, open: from.open };
    match from.mode {
        Mode::Content => if c != '<' {
            on
        } else if holds_at(text, at, comment_start()) {
            Reading { at: at + 4, mode: Mode::Comment, open: from.open }
        } else if holds_at(text, at, cdata_start()) {
            Reading { at: at + 9, mode: Mode::CData, open: from.open }
        } else if holds_at(text, at, seq!['<', '?']) {
            Reading { at: at + 2, mode: Mode::Instruction, open: from.open }
        } else if holds_at(text, at, seq!['<', '!']) {
            Reading { at: at + 2, mode: Mode::Refused, open: from.open }
        } else if holds_at(text, at, seq!['<', '/']) {
            Reading { at: at + 2, mode: Mode::Content, open: less_one(from.open) }
        } else {
            Reading { at: at + 1, mode: Mode::Tag, open: from.open + 1 }
        },
        Mode::Tag => if c == '"' || c == '\'' {
            Reading { at: at + 1, mode: Mode::Quoted(c), open: from.open }
        } else if c == '<' {
            Reading { at: at + 1, mode: Mode::Refused, open: from.open }
        } else if c == '>' {
            Reading {
                at: at + 1,
                mode: Mode::Content,
                open: if at > 0 && text[at - 1] == '/' {
                    less_one(from.open)
                } else {
                    from.open
                },
            }
        } else {
            on
        },
        Mode::Quoted(quote) => if c == quote {
            Reading { at: at + 1, mode: Mode::Tag, open: from.open }
        } else if c == '<' {
            Reading { at: at + 1, mode: Mode::Refused, open: from.open }
        } else {
            on
        },
        Mode::Comment => if holds_at(text, at, comment_end()) {
            Reading { at: at + 3, mode: Mode::Content, open: from.open }
        } else {
            on
        },
        Mode::CData => if holds_at(text, at, cdata_end()) {
            Reading { at: at + 3, mode: Mode::Content, open: from.open }
        } else {
            on
        },
        Mode::Instruction => if holds_at(text, at, seq!['?', '>']) {
            Reading { at: at + 2, mode: Mode::Content, open: from.open }
        } else {
            on
        },
        Mode::Refused => on,
    }
}

/// The greatest number of elements that are open at `from` or at a later
/// point of the reading of `text`. The reading ends with the text, and where
/// it meets what is no XML.
pub open spec fn deepest_from(text: Seq<char>, from: Reading) -> nat
    decreases text.len() - from.at,
{
    if from.at < 0 || from.at >= text.len() || from.mode == Mode::Refused {
        from.open
    } else {
        let rest = deepest_from(text, step(text, from));
        if rest > from.open {
            rest
        } else {
            from.open
        }
    }
}

/// The greatest number of elements of `text` that are open at a time.
pub open spec fn nesting(text: Seq<char>) -> nat {
    deepest_from(text, Reading { at: 0, mode: Mode::Content, open: 0 })
}

/// Whether `chars` holds `word` at position `at`.
fn holds(chars: &Vec<char>, at: usize, word: &Vec<char>) -> (found: bool)
    requires
        at <= chars.len(),
    ensures
        found == holds_at(chars@, at as int, word@),
{
    if word.len() > chars.len() - at {
        return false;
    }
    let mut k: usize = 0;
    while k < word.len()
        invariant
            k <= word.len(),
            at + word.len() <= chars.len(),
            forall|j: int| 0 <= j < k ==> chars@[at + j] == word@[j],
        decreases word.len() - k,
    {
        if chars[at + k] != word[k] {
            return false;
        }
        k += 1;
    }
    true
}

/// Counts how deep the elements of a text are nested at most.
pub fn nesting_of(chars: &Vec<char>) -> (deepest: usize)
    ensures
        deepest == nesting(chars@),
{
    let comment_start = vec!['<', '!', '-', '-'];
    let comment_end = vec!['-', '-', '>'];
    let cdata_start = vec!['<', '!', '[', 'C', 'D', 'A', 'T', 'A', '['];
    let cdata_end = vec![']', ']', '>'];
    let instruction_start = vec!['<', '?'];
    let instruction_end = vec!['?', '>'];
    let declaration_start = vec!['<', '!'];
    let close_start = vec!['<', '/'];
    proof {
        assert(comment_start@ =~= self::comment_start());
        assert(comment_end@ =~= self::comment_end());
        assert(cdata_start@ =~= self::cdata_start());
        assert(cdata_end@ =~= self::cdata_end());
        assert(instruction_start@ =~= seq!['<', '?']);
        assert(instruction_end@ =~= seq!['?', '>']);
        assert(declaration_start@ =~= seq!['<', '!']);
        assert(close_start@ =~= seq!['<', '/']);
    }
    let n = chars.len();
    let mut at: usize = 0;
    let mut mode = Mode::Content;
    let mut open: usize = 0;
    let mut deepest: usize = 0;
    while at < n
        invariant
            n == chars.len(),
            at <= n,
            open <= at,
            open <= deepest,
            mode != Mode::Refused,
            comment_start@ == self::comment_start(),
            comment_end@ == self::comment_end(),
            cdata_start@ == self::cdata_start(),
            cdata_end@ == self::cdata_end(),
            instruction_start@ == seq!['<', '?'],
            instruction_end@ == seq!['?', '>'],
            declaration_start@ == seq!['<', '!'],
            close_start@ == seq!['<', '/'],
            nesting(chars@) == vstd::math::max(
                deepest as int,
                deepest_from(chars@, Reading { at: at as int, mode, open: open as nat }) as int,
            ),
        decreases n - at,
    {
        let ghost from = Reading { at: at as int, mode, open: open as nat };
        let c = chars[at];
        let mut next = at + 1;
        let mut refused = false;
        match mode {
            Mode::Content => {
                if c != '<' {
                } else if holds(chars, at, &comment_start) {
                    next = at + 4;
                    mode = Mode::Comment;
                } else if holds(chars, at, &cdata_start) {
                    next = at + 9;
                    mode = Mode::CData;
                } else if holds(chars, at, &instruction_start) {
                    next = at + 2;
                    mode = Mode::Instruction;
                } else if holds(chars, at, &declaration_start) {
                    next = at + 2;
                    refused = true;
                } else if holds(chars, at, &close_start) {
                    next = at + 2;
                    if open > 0 {
                        open -= 1;
                    }
                } else {
                    mode = Mode::Tag;
                    open += 1;
                }
            },
            Mode::Tag => {
                if c == '"' || c == '\'' {
                    mode = Mode::Quoted(c);
                } else if c == '<' {
                    refused = true;
                } else if c == '>' {
                    mode = Mode::Content;
                    if at > 0 && chars[at - 1] == '/' && open > 0 {
                        open -= 1;
                    }
                }
            },
            Mode::Quoted(quote) => {
                if c == quote {
                    mode = Mode::Tag;
                } else if c == '<' {
                    refused = true;
                }
            },
            Mode::Comment => {
                if holds(chars, at, &comment_end) {
                    next = at + 3;
                    mode = Mode::Content;
                }
            },
            Mode::CData => {
                if holds(chars, at, &cdata_end) {
                    next = at + 3;
                    mode = Mode::Content;
                }
            },
            Mode::Instruction => {
                if holds(chars, at, &instruction_end) {
                    next = at + 2;
                    mode = Mode::Content;
                }
            },
            Mode::Refused => {},
        }
        proof {
            let to = step(chars@, from);
            assert(to.at == next);
            assert(to.open == open);
            assert(refused ==> to.mode == Mode::Refused);
            assert(!refused ==> to.mode == mode);
            if refused {
                assert(deepest_from(chars@, to) == to.open);
            }
        }
        if open > deepest {
            deepest = open;
        }
        if refused {
            return deepest;
        }
        at = next;
    }
    deepest
}

} // verus!
