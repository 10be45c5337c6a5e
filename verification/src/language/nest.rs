//! The structure scanner of manifest documents: a byte-at-a-time state
//! machine over a bounded JSON subset whose whole state crosses each call.
//!
//! The root is one object; containers nest at most four deep; strings
//! admit only the escapes `\"`, `\\`, `\n`, `\t` and no control bytes;
//! scalars other than strings are runs of `[A-Za-z0-9.+-]`, typed later by
//! extraction. Expect states: 0 need-value, 1 fresh container (an object
//! wants a key, an array a value; the innermost stack entry decides),
//! 2 need-colon, 3 need-comma-or-close, 4 complete.

use vstd::prelude::*;

use crate::error::IngestError;
use crate::language::LanguageRuntime;
use crate::manifest::{NestState, ScanVerdict};

verus! {

pub const EXPECT_VALUE: u64 = 0;
pub const EXPECT_FRESH: u64 = 1;
pub const EXPECT_COLON: u64 = 2;
pub const EXPECT_COMMA: u64 = 3;
pub const EXPECT_DONE: u64 = 4;

/// Stack lane of an object.
pub const KIND_OBJECT: u64 = 1;
/// Stack lane of an array.
pub const KIND_ARRAY: u64 = 2;
pub const MAX_DEPTH: u64 = 4;

pub const SCAN_OK: i64 = 0;
pub const SCAN_COMPLETE: i64 = 1;
pub const SCAN_TRUNCATED: i64 = 2;
pub const SCAN_MALFORMED: i64 = 3;

pub const QUOTE: u8 = 34;
pub const BACKSLASH: u8 = 92;
pub const COLON: u8 = 58;
pub const COMMA: u8 = 44;
pub const OPEN_OBJECT: u8 = 123;
pub const CLOSE_OBJECT: u8 = 125;
pub const OPEN_ARRAY: u8 = 91;
pub const CLOSE_ARRAY: u8 = 93;

/// The content of a [`NestState`].
pub ghost struct NestView {
    pub depth: nat,
    pub stack: Seq<u64>,
    pub expect: nat,
    pub in_string: bool,
    pub esc: bool,
    pub max_depth: nat,
    pub seen_value: bool,
    pub in_literal: bool,
    pub after_comma: bool,
}

impl View for NestState {
    type V = NestView;

    open spec fn view(&self) -> NestView {
        NestView {
            depth: self.depth as nat,
            stack: self.stack@,
            expect: self.expect as nat,
            in_string: self.in_string,
            esc: self.esc,
            max_depth: self.max_depth as nat,
            seen_value: self.seen_value,
            in_literal: self.in_literal,
            after_comma: self.after_comma,
        }
    }
}

/// Space, tab, newline or carriage return.
pub open spec fn is_blank(b: u8) -> bool {
    b == 32 || b == 9 || b == 10 || b == 13
}

/// A byte of an unquoted scalar.
pub open spec fn is_literal_byte(b: u8) -> bool {
    (97 <= b <= 122) || (65 <= b <= 90) || (48 <= b <= 57) || b == 45 || b == 43 || b == 46
}

/// A byte that may follow a backslash in a string.
pub open spec fn is_escape_byte(b: u8) -> bool {
    b == QUOTE || b == BACKSLASH || b == 110 || b == 116
}

/// The kind of the innermost open container (0 when none).
pub open spec fn top_kind(st: NestView) -> u64 {
    if 1 <= st.depth <= MAX_DEPTH {
        st.stack[st.depth - 1]
    } else {
        0
    }
}

/// The scanner stands where an object key is due.
pub open spec fn key_slot(st: NestView) -> bool {
    st.expect == EXPECT_FRESH && top_kind(st) == KIND_OBJECT
}

/// The scanner stands where a value inside a container is due.
pub open spec fn value_slot(st: NestView) -> bool {
    (st.expect == EXPECT_VALUE && st.depth >= 1) || (st.expect == EXPECT_FRESH && top_kind(st)
        == KIND_ARRAY)
}

/// The container kind an opening or closing byte stands for.
pub open spec fn bracket_kind(b: u8) -> u64 {
    if b == OPEN_OBJECT || b == CLOSE_OBJECT {
        KIND_OBJECT
    } else {
        KIND_ARRAY
    }
}

/// One byte outside strings and scalars.
pub open spec fn plain_step(st: NestView, b: u8) -> Option<NestView> {
    if is_blank(b) {
        Some(st)
    } else if st.expect == EXPECT_DONE {
        None
    } else if b == OPEN_OBJECT || b == OPEN_ARRAY {
        let opens = value_slot(st) || (st.expect == EXPECT_VALUE && st.depth == 0 && b
            == OPEN_OBJECT);
        if !opens || st.depth >= MAX_DEPTH {
            None
        } else {
            let d = st.depth + 1;
            Some(
                NestView {
                    depth: d,
                    stack: st.stack.update(st.depth as int, bracket_kind(b)),
                    expect: EXPECT_FRESH as nat,
                    max_depth: if st.max_depth < d {
                        d
                    } else {
                        st.max_depth
                    },
                    seen_value: true,
                    after_comma: false,
                    ..st
                },
            )
        }
    } else if b == CLOSE_OBJECT || b == CLOSE_ARRAY {
        let closes = st.depth >= 1 && top_kind(st) == bracket_kind(b) && ((st.expect
            == EXPECT_FRESH && !st.after_comma) || st.expect == EXPECT_COMMA);
        if !closes {
            None
        } else {
            let d = (st.depth - 1) as nat;
            Some(
                NestView {
                    depth: d,
                    stack: st.stack.update(d as int, 0),
                    expect: if d == 0 {
                        EXPECT_DONE as nat
                    } else {
                        EXPECT_COMMA as nat
                    },
                    after_comma: false,
                    ..st
                },
            )
        }
    } else if b == QUOTE {
        if value_slot(st) || key_slot(st) {
            Some(NestView { in_string: true, esc: false, ..st })
        } else {
            None
        }
    } else if b == COLON {
        if st.expect == EXPECT_COLON {
            Some(NestView { expect: EXPECT_VALUE as nat, ..st })
        } else {
            None
        }
    } else if b == COMMA {
        if st.expect == EXPECT_COMMA && st.depth >= 1 {
            Some(NestView { expect: EXPECT_FRESH as nat, after_comma: true, ..st })
        } else {
            None
        }
    } else if is_literal_byte(b) {
        if value_slot(st) {
            Some(NestView { in_literal: true, ..st })
        } else {
            None
        }
    } else {
        None
    }
}

/// One byte of a document; `None` when the byte is malformed here.
pub open spec fn nest_step(st: NestView, b: u8) -> Option<NestView> {
    if st.in_string {
        if st.esc {
            if is_escape_byte(b) {
                Some(NestView { esc: false, ..st })
            } else {
                None
            }
        } else if b == BACKSLASH {
            Some(NestView { esc: true, ..st })
        } else if b == QUOTE {
            Some(
                NestView {
                    in_string: false,
                    expect: if key_slot(st) {
                        EXPECT_COLON as nat
                    } else {
                        EXPECT_COMMA as nat
                    },
                    after_comma: false,
                    ..st
                },
            )
        } else if b < 32 {
            None
        } else {
            Some(st)
        }
    } else if st.in_literal {
        if is_literal_byte(b) {
            Some(st)
        } else {
            plain_step(
                NestView { in_literal: false, expect: EXPECT_COMMA as nat, after_comma: false, ..st },
                b,
            )
        }
    } else {
        plain_step(st, b)
    }
}

/// The outcome of scanning a run of bytes: the index of the first
/// malformed byte if any, and the state before it (or at the end).
pub ghost struct NestScan {
    pub failed_at: Option<nat>,
    pub state: NestView,
}

pub open spec fn nest_scan(st: NestView, s: Seq<u8>) -> NestScan
    decreases s.len(),
{
    if s.len() == 0 {
        NestScan { failed_at: None, state: st }
    } else {
        match nest_step(st, s[0]) {
            None => NestScan { failed_at: Some(0), state: st },
            Some(next) => {
                let r = nest_scan(next, s.drop_first());
                NestScan {
                    failed_at: match r.failed_at {
                        Some(k) => Some(k + 1),
                        None => None,
                    },
                    state: r.state,
                }
            },
        }
    }
}

/// The state of a scanner that has seen nothing.
pub open spec fn nest_start() -> NestView {
    NestView {
        depth: 0,
        stack: seq![0u64, 0u64, 0u64, 0u64],
        expect: EXPECT_VALUE as nat,
        in_string: false,
        esc: false,
        max_depth: 0,
        seen_value: false,
        in_literal: false,
        after_comma: false,
    }
}

/// Scanning `x ++ y` is scanning `x`, then `y` from where `x` left off; a
/// malformed byte within `x` is the malformed byte of `x ++ y`.
pub proof fn lemma_nest_scan_split(st: NestView, x: Seq<u8>, y: Seq<u8>)
    ensures
        ({
            let first = nest_scan(st, x);
            let whole = nest_scan(st, x + y);
            match first.failed_at {
                Some(k) => whole == first,
                None => {
                    let second = nest_scan(first.state, y);
                    &&& whole.state == second.state
                    &&& whole.failed_at == match second.failed_at {
                        Some(k) => Some(k + x.len()),
                        None => None::<nat>,
                    }
                }
            }
        }),
    decreases x.len(),
{
    if x.len() > 0 {
        assert((x + y)[0] == x[0]);
        assert((x + y).drop_first() =~= x.drop_first() + y);
        match nest_step(st, x[0]) {
            None => {},
            Some(next) => {
                lemma_nest_scan_split(next, x.drop_first(), y);
            },
        }
    } else {
        assert(x + y =~= y);
    }
}

/// JSON whitespace: space, tab, newline, carriage return.
pub open spec fn json_whitespace(b: u8) -> bool {
    b == 32 || b == 9 || b == 10 || b == 13
}

/// Between tokens (outside strings and unquoted scalars) a whitespace byte,
/// newline included, leaves the scanner exactly where it was.
pub proof fn lemma_whitespace_step(st: NestView, b: u8)
    requires
        !st.in_string,
        !st.in_literal,
        json_whitespace(b),
    ensures
        nest_step(st, b) == Some(st),
{
}

/// A run of whitespace between tokens scans to the state it started in,
/// with no malformed byte.
pub proof fn lemma_whitespace_run(st: NestView, w: Seq<u8>)
    requires
        !st.in_string,
        !st.in_literal,
        forall|i: int| 0 <= i < w.len() ==> json_whitespace(#[trigger] w[i]),
    ensures
        nest_scan(st, w) == (NestScan { failed_at: None, state: st }),
    decreases w.len(),
{
    if w.len() > 0 {
        lemma_whitespace_step(st, w[0]);
        assert forall|i: int| 0 <= i < w.drop_first().len() implies json_whitespace(
            #[trigger] w.drop_first()[i],
        ) by {
            assert(w.drop_first()[i] == w[i + 1]);
        }
        lemma_whitespace_run(st, w.drop_first());
    }
}

/// Inserting whitespace between tokens does not change what a document
/// scans to: where `x` leaves the scanner between tokens, scanning
/// `x ++ w ++ y` for a whitespace run `w` ends in the same state as
/// scanning `x ++ y`, and finds a malformed byte exactly when that does,
/// `w.len()` bytes later.
pub proof fn lemma_whitespace_insertion(st: NestView, x: Seq<u8>, w: Seq<u8>, y: Seq<u8>)
    requires
        nest_scan(st, x).failed_at is None,
        !nest_scan(st, x).state.in_string,
        !nest_scan(st, x).state.in_literal,
        forall|i: int| 0 <= i < w.len() ==> json_whitespace(#[trigger] w[i]),
    ensures
        nest_scan(st, x + w + y).state == nest_scan(st, x + y).state,
        nest_scan(st, x + w + y).failed_at == match nest_scan(st, x + y).failed_at {
            Some(k) => Some(k + w.len()),
            None => None::<nat>,
        },
{
    let mid = nest_scan(st, x).state;
    lemma_nest_scan_split(st, x, w + y);
    lemma_nest_scan_split(st, x, y);
    lemma_nest_scan_split(mid, w, y);
    lemma_whitespace_run(mid, w);
    assert(x + w + y =~= x + (w + y));
}

/// Every prefix of a document without a malformed byte is itself without
/// one: a truncated document is never reported malformed.
pub proof fn lemma_prefix_not_malformed(st: NestView, x: Seq<u8>, y: Seq<u8>)
    requires
        nest_scan(st, x + y).failed_at is None,
    ensures
        nest_scan(st, x).failed_at is None,
{
    lemma_nest_scan_split(st, x, y);
}

/// The verdict of one scan step: what scanning `view` from `st` at stream
/// position `base` yields, finalised when `eof`.
pub ghost struct VerdictView {
    pub status: i64,
    pub state: NestView,
    pub position: nat,
    pub consumed: nat,
}

pub open spec fn scan_verdict(st: NestView, view: Seq<u8>, base: nat, eof: bool) -> VerdictView {
    let r = nest_scan(st, view);
    match r.failed_at {
        Some(k) => VerdictView { status: SCAN_MALFORMED, state: r.state, position: base + k, consumed: k },
        None => VerdictView {
            status: if !eof {
                SCAN_OK
            } else if r.state.expect == EXPECT_DONE {
                SCAN_COMPLETE
            } else {
                SCAN_TRUNCATED
            },
            state: r.state,
            position: base + view.len(),
            consumed: view.len(),
        },
    }
}

impl ScanVerdict {
    /// This verdict carries exactly `v`.
    pub open spec fn describes(&self, v: VerdictView) -> bool {
        &&& self.status == v.status
        &&& self.state@ == v.state
        &&& self.position == v.position
        &&& self.consumed == v.consumed
    }
}

/// Kind of the innermost open container of `st`.
fn top_of(st: &NestState) -> (r: u64)
    ensures
        r == top_kind(st@),
{
    if 1 <= st.depth && st.depth <= MAX_DEPTH {
        st.stack[(st.depth - 1) as usize]
    } else {
        0
    }
}

fn blank(b: u8) -> (r: bool)
    ensures
        r == is_blank(b),
{
    b == 32 || b == 9 || b == 10 || b == 13
}

fn literal_byte(b: u8) -> (r: bool)
    ensures
        r == is_literal_byte(b),
{
    (97 <= b && b <= 122) || (65 <= b && b <= 90) || (48 <= b && b <= 57) || b == 45 || b == 43
        || b == 46
}

/// One byte outside strings and scalars; `None` when malformed.
fn plain(st: NestState, b: u8) -> (r: Option<NestState>)
    requires
        st@.stack.len() == 4,
    ensures
        match plain_step(st@, b) {
            Some(v) => r matches Some(n) && n@ == v,
            None => r is None,
        },
{
    if blank(b) {
        return Some(st);
    }
    if st.expect == EXPECT_DONE {
        return None;
    }
    let top = top_of(&st);
    let value_here = (st.expect == EXPECT_VALUE && st.depth >= 1) || (st.expect == EXPECT_FRESH
        && top == KIND_ARRAY);
    let key_here = st.expect == EXPECT_FRESH && top == KIND_OBJECT;
    if b == OPEN_OBJECT || b == OPEN_ARRAY {
        let opens = value_here || (st.expect == EXPECT_VALUE && st.depth == 0 && b == OPEN_OBJECT);
        if !opens || st.depth >= MAX_DEPTH {
            return None;
        }
        let kind = if b == OPEN_OBJECT {
            KIND_OBJECT
        } else {
            KIND_ARRAY
        };
        let mut stack = st.stack;
        stack[st.depth as usize] = kind;
        let d = st.depth + 1;
        let next = NestState {
            depth: d,
            stack,
            expect: EXPECT_FRESH,
            in_string: st.in_string,
            esc: st.esc,
            max_depth: if st.max_depth < d {
                d
            } else {
                st.max_depth
            },
            seen_value: true,
            in_literal: st.in_literal,
            after_comma: false,
        };
        assert(next@ =~= plain_step(st@, b).unwrap());
        Some(next)
    } else if b == CLOSE_OBJECT || b == CLOSE_ARRAY {
        let kind = if b == CLOSE_OBJECT {
            KIND_OBJECT
        } else {
            KIND_ARRAY
        };
        let closes = st.depth >= 1 && top == kind && ((st.expect == EXPECT_FRESH && !st.after_comma)
            || st.expect == EXPECT_COMMA);
        if !closes {
            return None;
        }
        let d = st.depth - 1;
        let mut stack = st.stack;
        if d < 4 {
            stack[d as usize] = 0;
        }
        let next = NestState {
            depth: d,
            stack,
            expect: if d == 0 {
                EXPECT_DONE
            } else {
                EXPECT_COMMA
            },
            in_string: st.in_string,
            esc: st.esc,
            max_depth: st.max_depth,
            seen_value: st.seen_value,
            in_literal: st.in_literal,
            after_comma: false,
        };
        assert(next@ =~= plain_step(st@, b).unwrap());
        Some(next)
    } else if b == QUOTE {
        if value_here || key_here {
            Some(NestState { in_string: true, esc: false, ..st })
        } else {
            None
        }
    } else if b == COLON {
        if st.expect == EXPECT_COLON {
            Some(NestState { expect: EXPECT_VALUE, ..st })
        } else {
            None
        }
    } else if b == COMMA {
        if st.expect == EXPECT_COMMA && st.depth >= 1 {
            Some(NestState { expect: EXPECT_FRESH, after_comma: true, ..st })
        } else {
            None
        }
    } else if literal_byte(b) {
        if value_here {
            Some(NestState { in_literal: true, ..st })
        } else {
            None
        }
    } else {
        None
    }
}

/// One byte of a document; `None` when malformed.
fn step(st: NestState, b: u8) -> (r: Option<NestState>)
    requires
        st@.stack.len() == 4,
    ensures
        match nest_step(st@, b) {
            Some(v) => r matches Some(n) && n@ == v,
            None => r is None,
        },
{
    if st.in_string {
        if st.esc {
            if b == QUOTE || b == BACKSLASH || b == 110 || b == 116 {
                Some(NestState { esc: false, ..st })
            } else {
                None
            }
        } else if b == BACKSLASH {
            Some(NestState { esc: true, ..st })
        } else if b == QUOTE {
            let key_here = st.expect == EXPECT_FRESH && top_of(&st) == KIND_OBJECT;
            Some(
                NestState {
                    in_string: false,
                    expect: if key_here {
                        EXPECT_COLON
                    } else {
                        EXPECT_COMMA
                    },
                    after_comma: false,
                    ..st
                },
            )
        } else if b < 32 {
            None
        } else {
            Some(st)
        }
    } else if st.in_literal {
        if literal_byte(b) {
            Some(st)
        } else {
            plain(NestState { in_literal: false, expect: EXPECT_COMMA, after_comma: false, ..st }, b)
        }
    } else {
        plain(st, b)
    }
}

impl LanguageRuntime {
    /// Incremental manifest scan step with decomposed scanner state.
    pub fn scan_chunk(&self, state: &NestState, view: &[u8], base: u64, eof: bool) -> (r: Result<
        ScanVerdict,
        IngestError,
    >)
        requires
            base + view@.len() <= u64::MAX,
        ensures
            r matches Ok(v) && v.describes(scan_verdict(state@, view@, base as nat, eof)),
    {
        let ghost whole = nest_scan(state@, view@);
        let mut st = *state;
        let mut i: usize = 0;
        assert(view@.skip(0) =~= view@);
        while i < view.len()
            invariant
                whole == nest_scan(state@, view@),
                base + view@.len() <= u64::MAX,
                i <= view@.len(),
                st@.stack.len() == 4,
                ({
                    let rest = nest_scan(st@, view@.skip(i as int));
                    &&& whole.state == rest.state
                    &&& whole.failed_at == match rest.failed_at {
                        Some(k) => Some((k + i) as nat),
                        None => None::<nat>,
                    }
                }),
            decreases view@.len() - i,
        {
            assert(view@.skip(i as int)[0] == view@[i as int]);
            assert(view@.skip(i as int).drop_first() =~= view@.skip(i + 1));
            match step(st, view[i]) {
                None => {
                    return Ok(
                        ScanVerdict {
                            status: SCAN_MALFORMED,
                            state: st,
                            position: base + i as u64,
                            consumed: i as u64,
                        },
                    );
                },
                Some(next) => {
                    st = next;
                },
            }
            i += 1;
        }
        assert(view@.skip(i as int) =~= seq![]);
        let status = if !eof {
            SCAN_OK
        } else if st.expect == EXPECT_DONE {
            SCAN_COMPLETE
        } else {
            SCAN_TRUNCATED
        };
        Ok(
            ScanVerdict {
                status,
                state: st,
                position: base + view.len() as u64,
                consumed: view.len() as u64,
            },
        )
    }
}

} // verus!
