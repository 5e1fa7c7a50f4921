//! Reading a JSON text byte by byte, without parsing it.

use vstd::prelude::*;

verus! {

/// The byte `"`.
pub const QUOTE: u8 = 0x22;

/// The byte `[`.
pub const OPENING_BRACKET: u8 = 0x5b;

/// The byte `\`.
pub const BACKSLASH: u8 = 0x5c;

/// The byte `]`.
pub const CLOSING_BRACKET: u8 = 0x5d;

/// The byte `{`.
pub const OPENING_BRACE: u8 = 0x7b;

/// The byte `}`.
pub const CLOSING_BRACE: u8 = 0x7d;

/// The bytes that count as white space before a JSON value.
pub open spec fn ascii_white_space(b: u8) -> bool {
    b == 0x09 || b == 0x0a || b == 0x0c || b == 0x0d || b == 0x20
}

/// The first byte of `body` that is not white space is an opening bracket.
pub open spec fn looks_like_batch(body: Seq<u8>) -> bool {
    exists|i: int|
        0 <= i < body.len() && #[trigger] body[i] == OPENING_BRACKET && forall|k: int|
            0 <= k < i ==> ascii_white_space(#[trigger] body[k])
}

/// Tells whether the first byte of `body` that is not white space is an opening bracket.
pub fn is_likely_batch(body: &[u8]) -> (r: bool)
    ensures
        r == looks_like_batch(body@),
{
    let mut i: usize = 0;
    while i < body.len()
        invariant
            i <= body@.len(),
            forall|k: int| 0 <= k < i ==> ascii_white_space(#[trigger] body@[k]),
        decreases body@.len() - i,
    {
        let b: u8 = body[i];
        if !(b == 0x09 || b == 0x0a || b == 0x0c || b == 0x0d || b == 0x20) {
            assert(!ascii_white_space(body@[i as int]));
            return b == OPENING_BRACKET;
        }
        i = i + 1;
    }
    false
}

/// How far a JSON text has been read: how many arrays and objects are open, whether a string is
/// open and its next byte escaped, and how many objects were opened directly inside the outermost
/// array or object.
pub struct Scan {
    pub depth: nat,
    pub in_string: bool,
    pub escaped: bool,
    pub objects: nat,
}

impl Scan {
    /// Nothing has been read yet.
    pub open spec fn start() -> Scan {
        Scan { depth: 0, in_string: false, escaped: false, objects: 0 }
    }

    /// How far the text has been read after one more byte.
    pub open spec fn next(self, b: u8) -> Scan {
        if self.in_string {
            if self.escaped {
                Scan { escaped: false, ..self }
            } else if b == BACKSLASH {
                Scan { escaped: true, ..self }
            } else if b == QUOTE {
                Scan { in_string: false, ..self }
            } else {
                self
            }
        } else if b == QUOTE {
            Scan { in_string: true, ..self }
        } else if b == OPENING_BRACE && self.depth == 1 {
            Scan { depth: 2, objects: self.objects + 1, ..self }
        } else if b == OPENING_BRACE || b == OPENING_BRACKET {
            Scan { depth: self.depth + 1, ..self }
        } else if (b == CLOSING_BRACE || b == CLOSING_BRACKET) && self.depth > 0 {
            Scan { depth: (self.depth - 1) as nat, ..self }
        } else {
            self
        }
    }
}

/// How far a text has been read that was read as far as `scan` and goes on with `bytes`.
pub open spec fn scan_from(scan: Scan, bytes: Seq<u8>) -> Scan
    decreases bytes.len(),
{
    if bytes.len() == 0 {
        scan
    } else {
        scan_from(scan, bytes.drop_last()).next(bytes.last())
    }
}

/// How far a JSON text has been read.
#[derive(Clone, Copy, Debug, PartialEq, Eq, Structural)]
pub struct Scanner {
    pub depth: usize,
    pub in_string: bool,
    pub escaped: bool,
    pub objects: usize,
}

impl View for Scanner {
    type V = Scan;

    open spec fn view(&self) -> Scan {
        Scan {
            depth: self.depth as nat,
            in_string: self.in_string,
            escaped: self.escaped,
            objects: self.objects as nat,
        }
    }
}

impl Scanner {
    /// The counts are no larger than the number of bytes that were read.
    pub open spec fn within(self, len: nat) -> bool {
        self.depth <= len && self.objects <= len
    }

    /// Nothing has been read yet.
    pub fn new() -> (r: Scanner)
        ensures
            r@ == Scan::start(),
    {
        Scanner { depth: 0, in_string: false, escaped: false, objects: 0 }
    }

    /// Reads one more byte.
    pub fn read(&mut self, b: u8)
        requires
            old(self).depth < usize::MAX,
            old(self).objects < usize::MAX,
        ensures
            final(self)@ == old(self)@.next(b),
    {
        if self.in_string {
            if self.escaped {
                self.escaped = false;
            } else if b == BACKSLASH {
                self.escaped = true;
            } else if b == QUOTE {
                self.in_string = false;
            }
        } else if b == QUOTE {
            self.in_string = true;
        } else if b == OPENING_BRACE || b == OPENING_BRACKET {
            if b == OPENING_BRACE && self.depth == 1 {
                self.objects = self.objects + 1;
            }
            self.depth = self.depth + 1;
        } else if (b == CLOSING_BRACE || b == CLOSING_BRACKET) && self.depth > 0 {
            self.depth = self.depth - 1;
        }
    }
}

} // verus!
