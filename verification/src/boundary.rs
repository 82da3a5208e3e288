//! The grammar of the lines that bound sections.
//!
//! Most lines of a trace are body lines. A few shapes open or close a section
//! or report a lifecycle event; they are recognised here, on stripped text.

use vstd::prelude::*;
#[allow(unused_imports)]
use vstd::string::*;

use crate::model::{parse_addr, parse_tier, Addr, EventKind, Tier};
#[allow(unused_imports)]
use crate::model::{addr_of, tier_of, EventModel, TierModel};
use crate::text;
#[allow(unused_imports)]
use crate::text::{
    byte_is, decimal_u32, find_byte_in, last_word, occurs_at, rfind_from, run_end, text_of,
    word_end, word_is, ByteClass,
};

verus! {

/// What a line is to the indexer.
pub enum Boundary {
    /// `----- <name> -----`
    Banner { name: String },
    /// A rule of dashes.
    Rule,
    /// `Compiling 0x… <JSFunction …> with <Tier>`
    Compiling { addr: Option<Addr>, name: String, sfi: Option<Addr>, tier: Tier },
    /// `Begin compiling method <name> using <Tier>`
    Begin { name: String, tier: Tier },
    /// `Finished compiling method <name> using <Tier>`
    Finished,
    /// A lifecycle event.
    Event(EventKind),
    /// `Function: 0x… <JSFunction …>`, which names the function of a dump.
    Function { addr: Option<Addr>, name: String, sfi: Option<Addr> },
    /// A section of a code dump: `--- Raw source ---`, `--- Optimized code ---`
    /// or the bare `0x…: [Code]` of a code object.
    CodeBanner { name: String },
    /// `--- End code ---`
    CodeEnd,
    /// Anything else.
    Content,
}

/// The view of a `Boundary`.
pub enum BoundaryModel {
    Banner { name: Seq<char> },
    Rule,
    Compiling { addr: Option<Addr>, name: Seq<char>, sfi: Option<Addr>, tier: TierModel },
    Begin { name: Seq<char>, tier: TierModel },
    Finished,
    Event(EventModel),
    Function { addr: Option<Addr>, name: Seq<char>, sfi: Option<Addr> },
    CodeBanner { name: Seq<char> },
    CodeEnd,
    Content,
}

impl View for Boundary {
    type V = BoundaryModel;

    open spec fn view(&self) -> BoundaryModel {
        match self {
            Boundary::Banner { name } => BoundaryModel::Banner { name: name@ },
            Boundary::Rule => BoundaryModel::Rule,
            Boundary::Compiling { addr, name, sfi, tier } => BoundaryModel::Compiling {
                addr: *addr,
                name: name@,
                sfi: *sfi,
                tier: tier@,
            },
            Boundary::Begin { name, tier } => BoundaryModel::Begin { name: name@, tier: tier@ },
            Boundary::Finished => BoundaryModel::Finished,
            Boundary::Event(kind) => BoundaryModel::Event(kind@),
            Boundary::Function { addr, name, sfi } => BoundaryModel::Function {
                addr: *addr,
                name: name@,
                sfi: *sfi,
            },
            Boundary::CodeBanner { name } => BoundaryModel::CodeBanner { name: name@ },
            Boundary::CodeEnd => BoundaryModel::CodeEnd,
            Boundary::Content => BoundaryModel::Content,
        }
    }
}

// ---------------------------------------------------------------------------
// Banners and rules
// ---------------------------------------------------------------------------

/// `----- <name> -----`, with at most one white-space character after it: where
/// the name starts and ends.
pub open spec fn banner_name(s: Seq<u8>) -> Option<(int, int)> {
    let a = "----- ".spec_bytes().len() as int;
    let e = text::before_last_white(s) - " -----".spec_bytes().len();
    if occurs_at(s, 0, "----- ".spec_bytes()) && a < e && occurs_at(s, e, " -----".spec_bytes()) {
        Some((a, e))
    } else {
        None
    }
}

fn find_banner_name(s: &[u8]) -> (name: Option<(usize, usize)>)
    ensures
        match banner_name(s@) {
            Some((a, e)) => name matches Some(n) && n.0 == a && n.1 == e && a <= e <= s.len(),
            None => name is None,
        },
{
    if !text::starts_with_at(s, 0, "----- ") {
        return None;
    }
    let a: usize = "----- ".len();
    proof {
        reveal_strlit(" -----");
        vstd::utf8::is_ascii_chars_encode_utf8(" -----"@);
    }
    let w: usize = " -----".len();
    let end: usize = text::drop_last_white(s);
    if end < w {
        return None;
    }
    let e: usize = end - w;
    if a < e && text::starts_with_at(s, e, " -----") {
        Some((a, e))
    } else {
        None
    }
}

/// Twenty dashes or more and nothing else.
pub open spec fn is_rule_line(s: Seq<u8>) -> bool {
    run_end(s, 0, ByteClass::Dash) >= 20 && text::blank_from(s, run_end(s, 0, ByteClass::Dash))
}

fn check_rule(s: &[u8]) -> (yes: bool)
    ensures
        yes == is_rule_line(s@),
{
    let d: usize = text::skip(s, 0, ByteClass::Dash);
    d >= 20 && text::is_blank(s, d)
}

/// The callee of an inlining banner: `Inlining 0x… <SharedFunctionInfo name>
/// with bytecode`.
pub open spec fn inlining_banner(s: Seq<u8>) -> Option<(Option<Addr>, Seq<char>)> {
    let h = "Inlining ".spec_bytes().len() as int;
    let x = h + "0x".spec_bytes().len();
    let he = run_end(s, x, ByteClass::LowerHex);
    let p = he + " <SharedFunctionInfo".spec_bytes().len();
    let n = if byte_is(s, p, 0x20) {
        p + 1
    } else {
        p
    };
    let e = s.len() - "> with bytecode".spec_bytes().len();
    if occurs_at(s, 0, "Inlining ".spec_bytes()) && occurs_at(s, h, "0x".spec_bytes()) && he > x
        && occurs_at(s, he, " <SharedFunctionInfo".spec_bytes()) && n <= e && occurs_at(
        s,
        e,
        "> with bytecode".spec_bytes(),
    ) {
        Some((addr_of(s, h, he), text_of(s, n, e)))
    } else {
        None
    }
}

/// Reads the callee of an inlining banner.
pub fn parse_inlining_banner(s: &[u8]) -> (site: Option<(Option<Addr>, String)>)
    ensures
        match inlining_banner(s@) {
            Some((sfi, callee)) => site matches Some(x) && x.0 == sfi && x.1@ == callee,
            None => site is None,
        },
{
    if !text::starts_with_at(s, 0, "Inlining ") {
        return None;
    }
    assert(s.len() == s@.len());
    let h: usize = "Inlining ".len();
    if !text::starts_with_at(s, h, "0x") {
        return None;
    }
    let x: usize = h + "0x".len();
    let he: usize = text::skip(s, x, ByteClass::LowerHex);
    if he == x || !text::starts_with_at(s, he, " <SharedFunctionInfo") {
        return None;
    }
    let p: usize = he + " <SharedFunctionInfo".len();
    let n: usize = if text::byte_at(s, p, 0x20) {
        p + 1
    } else {
        p
    };
    proof {
        reveal_strlit("> with bytecode");
        vstd::utf8::is_ascii_chars_encode_utf8("> with bytecode"@);
    }
    let w: usize = "> with bytecode".len();
    if s.len() < w {
        return None;
    }
    let e: usize = s.len() - w;
    if n <= e && text::starts_with_at(s, e, "> with bytecode") {
        Some((parse_addr(s, h, he), text::text_between(s, n, e)))
    } else {
        None
    }
}

// ---------------------------------------------------------------------------
// Functions as they are printed
// ---------------------------------------------------------------------------

/// What may follow a printed function.
#[derive(Clone, Copy, PartialEq, Eq, Structural)]
pub enum Tail {
    /// ` with <Tier>` and the end of the line.
    With,
    /// ` for optimization to <TIER>, … reason: <r>]`
    Marking,
    /// ` (target <TIER>)[ OSR], mode: …]`
    Start,
    /// ` (target <TIER>)[ OSR] - took …]`
    Done,
    /// `, 0x… <Code <TIER>>, opt id N, bytecode offset N, …]`
    Deopt,
    /// The end of the line.
    Bare,
}

/// The line ends with a bracket that stands at or after `from`.
pub open spec fn closes_after(s: Seq<u8>, from: int) -> bool {
    from < s.len() && s.last() == 0x5d
}

/// The places in the tail after a function: where the tier's name starts and
/// ends, and a third place that depends on the tail.
pub open spec fn tail_places(s: Seq<u8>, at: int, tail: Tail) -> Option<(int, int, int)> {
    match tail {
        Tail::With => {
            let a = at + " with ".spec_bytes().len();
            if occurs_at(s, at, " with ".spec_bytes()) && last_word(s, a) {
                Some((a, word_end(s, a), 0))
            } else {
                None
            }
        },
        Tail::Marking => {
            let a = at + " for optimization to ".spec_bytes().len();
            let e = run_end(s, a, ByteClass::TierName);
            if occurs_at(s, at, " for optimization to ".spec_bytes()) && e > a && byte_is(s, e, 0x2c)
                && closes_after(s, e + 1) {
                match rfind_from(s, e + 1, s.len() as int, "reason: ".spec_bytes()) {
                    Some(r) => Some((a, e, r + "reason: ".spec_bytes().len())),
                    None => None,
                }
            } else {
                None
            }
        },
        Tail::Start => target_places(s, at, ", mode: ".spec_bytes()),
        Tail::Done => target_places(s, at, " - took ".spec_bytes()),
        Tail::Deopt => {
            let x = at + ", 0x".spec_bytes().len();
            let xe = run_end(s, x, ByteClass::LowerHex);
            let a = xe + " <Code ".spec_bytes().len();
            let e = run_end(s, a, ByteClass::TierName);
            let o = e + ">, opt id ".spec_bytes().len();
            let oe = run_end(s, o, ByteClass::Digit);
            let b = oe + ", bytecode offset ".spec_bytes().len();
            let be = run_end(s, b, ByteClass::Digit);
            if occurs_at(s, at, ", 0x".spec_bytes()) && xe > x && occurs_at(
                s,
                xe,
                " <Code ".spec_bytes(),
            ) && e > a && occurs_at(s, e, ">, opt id ".spec_bytes()) && oe > o && occurs_at(
                s,
                oe,
                ", bytecode offset ".spec_bytes(),
            ) && be > b && byte_is(s, be, 0x2c) && closes_after(s, be + 1) {
                Some((a, e, o))
            } else {
                None
            }
        },
        Tail::Bare => {
            if text::blank_from(s, at) {
                Some((at, at, 0))
            } else {
                None
            }
        },
    }
}

/// ` (target <TIER>)[ OSR]<word>…]`: the tier's name, and whether ` OSR` stands
/// there (as one or zero).
pub open spec fn target_places(s: Seq<u8>, at: int, word: Seq<u8>) -> Option<(int, int, int)> {
    let a = at + " (target ".spec_bytes().len();
    let e = run_end(s, a, ByteClass::TierName);
    let osr = occurs_at(s, e + 1, " OSR".spec_bytes());
    let m = if osr {
        e + 1 + " OSR".spec_bytes().len()
    } else {
        e + 1
    };
    if occurs_at(s, at, " (target ".spec_bytes()) && e > a && byte_is(s, e, 0x29) && occurs_at(
        s,
        m,
        word,
    ) && closes_after(s, m + word.len()) {
        Some(
            (
                a,
                e,
                if osr {
                    1
                } else {
                    0
                },
            ),
        )
    } else {
        None
    }
}

fn find_target_places(s: &[u8], at: usize, word: &str) -> (places: Option<(usize, usize, usize)>)
    requires
        at <= s.len(),
    ensures
        match target_places(s@, at as int, word.spec_bytes()) {
            Some((a, e, k)) => places matches Some(p) && p.0 == a && p.1 == e && p.2 == k && a <= e
                <= s.len(),
            None => places is None,
        },
{
    if !text::starts_with_at(s, at, " (target ") {
        return None;
    }
    let a: usize = at + " (target ".len();
    let e: usize = text::skip(s, a, ByteClass::TierName);
    if e == a || !text::byte_at(s, e, 0x29) {
        return None;
    }
    let osr: bool = text::starts_with_at(s, e + 1, " OSR");
    let m: usize = if osr {
        e + 1 + " OSR".len()
    } else {
        e + 1
    };
    if !text::starts_with_at(s, m, word) {
        return None;
    }
    let f: usize = m + word.len();
    if f < s.len() && s[s.len() - 1] == 0x5d {
        Some(
            (
                a,
                e,
                if osr {
                    1
                } else {
                    0
                },
            ),
        )
    } else {
        None
    }
}

fn find_tail_places(s: &[u8], at: usize, tail: Tail) -> (places: Option<(usize, usize, usize)>)
    requires
        at <= s.len(),
    ensures
        match tail_places(s@, at as int, tail) {
            Some((a, e, k)) => places matches Some(p) && p.0 == a && p.1 == e && p.2 == k && a <= e
                <= s.len() && k <= s.len(),
            None => places is None,
        },
{
    match tail {
        Tail::With => {
            if !text::starts_with_at(s, at, " with ") {
                return None;
            }
            let a: usize = at + " with ".len();
            if text::is_last_word(s, a) {
                Some((a, text::skip_word(s, a), 0))
            } else {
                None
            }
        },
        Tail::Marking => {
            if !text::starts_with_at(s, at, " for optimization to ") {
                return None;
            }
            let a: usize = at + " for optimization to ".len();
            let e: usize = text::skip(s, a, ByteClass::TierName);
            if e == a || !text::byte_at(s, e, 0x2c) {
                return None;
            }
            if !(e + 1 < s.len() && s[s.len() - 1] == 0x5d) {
                return None;
            }
            match text::rfind(s, e + 1, "reason: ") {
                Some(r) => Some((a, e, r + "reason: ".len())),
                None => None,
            }
        },
        Tail::Start => find_target_places(s, at, ", mode: "),
        Tail::Done => find_target_places(s, at, " - took "),
        Tail::Deopt => {
            if !text::starts_with_at(s, at, ", 0x") {
                return None;
            }
            let x: usize = at + ", 0x".len();
            let xe: usize = text::skip(s, x, ByteClass::LowerHex);
            if xe == x || !text::starts_with_at(s, xe, " <Code ") {
                return None;
            }
            let a: usize = xe + " <Code ".len();
            let e: usize = text::skip(s, a, ByteClass::TierName);
            if e == a || !text::starts_with_at(s, e, ">, opt id ") {
                return None;
            }
            let o: usize = e + ">, opt id ".len();
            let oe: usize = text::skip(s, o, ByteClass::Digit);
            if oe == o || !text::starts_with_at(s, oe, ", bytecode offset ") {
                return None;
            }
            let b: usize = oe + ", bytecode offset ".len();
            let be: usize = text::skip(s, b, ByteClass::Digit);
            if be == b || !text::byte_at(s, be, 0x2c) {
                return None;
            }
            if be + 1 < s.len() && s[s.len() - 1] == 0x5d {
                Some((a, e, o))
            } else {
                None
            }
        },
        Tail::Bare => if text::is_blank(s, at) {
            Some((at, at, 0))
        } else {
            None
        },
    }
}

/// The end of the function whose name ends at `q`: `[ ](sfi = 0x…)>`. Gives
/// where the address starts and ends and where the function ends.
pub open spec fn sfi_after(s: Seq<u8>, q: int) -> Option<(int, int, int)> {
    let o = if byte_is(s, q, 0x20) {
        q + 1
    } else {
        q
    };
    let h = o + "(sfi = ".spec_bytes().len();
    let x = h + "0x".spec_bytes().len();
    let he = run_end(s, x, ByteClass::LowerHex);
    if occurs_at(s, o, "(sfi = ".spec_bytes()) && occurs_at(s, h, "0x".spec_bytes()) && he > x
        && occurs_at(s, he, ")>".spec_bytes()) {
        Some((h, he, he + ")>".spec_bytes().len()))
    } else {
        None
    }
}

fn find_sfi_after(s: &[u8], q: usize) -> (places: Option<(usize, usize, usize)>)
    requires
        q <= s.len(),
    ensures
        match sfi_after(s@, q as int) {
            Some((h, he, f)) => places matches Some(p) && p.0 == h && p.1 == he && p.2 == f && q
                <= h <= he <= f <= s.len(),
            None => places is None,
        },
{
    let o: usize = if text::byte_at(s, q, 0x20) {
        q + 1
    } else {
        q
    };
    if !text::starts_with_at(s, o, "(sfi = ") {
        return None;
    }
    let h: usize = o + "(sfi = ".len();
    if !text::starts_with_at(s, h, "0x") {
        return None;
    }
    let x: usize = h + "0x".len();
    let he: usize = text::skip(s, x, ByteClass::LowerHex);
    if he > x && text::starts_with_at(s, he, ")>") {
        Some((h, he, he + ")>".len()))
    } else {
        None
    }
}

/// A printed function and what follows it.
pub struct FunctionPlaces {
    pub name_start: usize,
    pub name_end: usize,
    pub sfi_start: usize,
    pub sfi_end: usize,
    pub tier_start: usize,
    pub tier_end: usize,
    pub extra: usize,
}

/// The view of `FunctionPlaces`.
pub struct PlacesModel {
    pub name_start: int,
    pub name_end: int,
    pub sfi_start: int,
    pub sfi_end: int,
    pub tier_start: int,
    pub tier_end: int,
    pub extra: int,
}

impl View for FunctionPlaces {
    type V = PlacesModel;

    open spec fn view(&self) -> PlacesModel {
        PlacesModel {
            name_start: self.name_start as int,
            name_end: self.name_end as int,
            sfi_start: self.sfi_start as int,
            sfi_end: self.sfi_end as int,
            tier_start: self.tier_start as int,
            tier_end: self.tier_end as int,
            extra: self.extra as int,
        }
    }
}

/// The function whose name starts at `n`, with the shortest name from `q` on
/// that lets the rest of the line match.
pub open spec fn function_from(s: Seq<u8>, n: int, q: int, tail: Tail) -> Option<PlacesModel>
    decreases s.len() - q,
{
    if q < 0 || q >= s.len() {
        None
    } else {
        match sfi_after(s, q) {
            Some((h, he, f)) => match tail_places(s, f, tail) {
                Some((a, e, k)) => Some(
                    PlacesModel {
                        name_start: n,
                        name_end: q,
                        sfi_start: h,
                        sfi_end: he,
                        tier_start: a,
                        tier_end: e,
                        extra: k,
                    },
                ),
                None => function_from(s, n, q + 1, tail),
            },
            None => function_from(s, n, q + 1, tail),
        }
    }
}

/// `<JSFunction[ ]name[ ](sfi = 0x…)>` at `at` and then `tail`. The name is
/// empty for the toplevel function.
pub open spec fn function_at(s: Seq<u8>, at: int, tail: Tail) -> Option<PlacesModel> {
    let p = at + "<JSFunction".spec_bytes().len();
    let n = if byte_is(s, p, 0x20) {
        p + 1
    } else {
        p
    };
    if occurs_at(s, at, "<JSFunction".spec_bytes()) {
        function_from(s, n, n, tail)
    } else {
        None
    }
}

/// Every place lies within the line and names do not run backwards.
pub open spec fn places_ok(p: PlacesModel, len: int) -> bool {
    &&& 0 <= p.name_start <= p.name_end <= p.sfi_start <= p.sfi_end <= len
    &&& 0 <= p.tier_start <= p.tier_end <= len
    &&& 0 <= p.extra <= len
}

fn find_function(s: &[u8], at: usize, tail: Tail) -> (places: Option<FunctionPlaces>)
    requires
        at <= s.len(),
    ensures
        match function_at(s@, at as int, tail) {
            Some(p) => places matches Some(f) && f@ == p && places_ok(p, s.len() as int),
            None => places is None,
        },
{
    if !text::starts_with_at(s, at, "<JSFunction") {
        return None;
    }
    let p: usize = at + "<JSFunction".len();
    let n: usize = if text::byte_at(s, p, 0x20) {
        p + 1
    } else {
        p
    };
    let mut q: usize = n;
    while q < s.len()
        invariant
            n <= q <= s.len(),
            function_at(s@, at as int, tail) == function_from(s@, n as int, q as int, tail),
        decreases s.len() - q,
    {
        if let Some((h, he, f)) = find_sfi_after(s, q) {
            if let Some((a, e, k)) = find_tail_places(s, f, tail) {
                return Some(
                    FunctionPlaces {
                        name_start: n,
                        name_end: q,
                        sfi_start: h,
                        sfi_end: he,
                        tier_start: a,
                        tier_end: e,
                        extra: k,
                    },
                );
            }
        }
        q += 1;
    }
    None
}

/// Where the function starts: after an address and a space, where they stand at
/// `at`.
pub open spec fn after_address(s: Seq<u8>, at: int) -> int {
    let x = at + "0x".spec_bytes().len();
    let e = run_end(s, x, ByteClass::LowerHex);
    if occurs_at(s, at, "0x".spec_bytes()) && e > x && byte_is(s, e, 0x20) {
        e + 1
    } else {
        at
    }
}

fn skip_address(s: &[u8], at: usize) -> (next: usize)
    requires
        at <= s.len(),
    ensures
        next == after_address(s@, at as int),
        at <= next <= s.len(),
{
    if !text::starts_with_at(s, at, "0x") {
        return at;
    }
    let x: usize = at + "0x".len();
    let e: usize = text::skip(s, x, ByteClass::LowerHex);
    if e > x && text::byte_at(s, e, 0x20) {
        e + 1
    } else {
        at
    }
}

// ---------------------------------------------------------------------------
// Anchors
// ---------------------------------------------------------------------------

/// `<word>0x… <JSFunction …><tail>`: the end of the address and the function.
pub open spec fn anchored(s: Seq<u8>, word: Seq<u8>, tail: Tail) -> Option<(int, PlacesModel)> {
    let h = word.len() as int;
    let x = h + "0x".spec_bytes().len();
    let he = run_end(s, x, ByteClass::LowerHex);
    if occurs_at(s, 0, word) && occurs_at(s, h, "0x".spec_bytes()) && he > x && byte_is(s, he, 0x20) {
        match function_at(s, he + 1, tail) {
            Some(p) => Some((he, p)),
            None => None,
        }
    } else {
        None
    }
}

fn find_anchored(s: &[u8], word: &str, tail: Tail) -> (found: Option<(usize, FunctionPlaces)>)
    ensures
        match anchored(s@, word.spec_bytes(), tail) {
            Some((he, p)) => found matches Some(f) && f.0 == he && f.1@ == p && places_ok(
                p,
                s.len() as int,
            ) && word.spec_bytes().len() <= he <= s.len(),
            None => found is None,
        },
{
    if !text::starts_with_at(s, 0, word) {
        return None;
    }
    assert(s.len() == s@.len());
    let h: usize = word.len();
    if !text::starts_with_at(s, h, "0x") {
        return None;
    }
    let x: usize = h + "0x".len();
    let he: usize = text::skip(s, x, ByteClass::LowerHex);
    if he == x || !text::byte_at(s, he, 0x20) {
        return None;
    }
    match find_function(s, he + 1, tail) {
        Some(p) => Some((he, p)),
        None => None,
    }
}

/// `<word><name> using <Tier>`: where the shortest such name ends.
pub open spec fn using_from(s: Seq<u8>, q: int) -> Option<int>
    decreases s.len() - q,
{
    if q < 0 || q >= s.len() {
        None
    } else if occurs_at(s, q, " using ".spec_bytes()) && last_word(
        s,
        q + " using ".spec_bytes().len(),
    ) {
        Some(q)
    } else {
        using_from(s, q + 1)
    }
}

fn find_using(s: &[u8], from: usize) -> (at: Option<usize>)
    requires
        from <= s.len(),
    ensures
        text::pos(at) == using_from(s@, from as int),
        at matches Some(q) ==> from <= q && occurs_at(s@, q as int, " using ".spec_bytes())
            && last_word(s@, q + " using ".spec_bytes().len()),
{
    let mut q: usize = from;
    while q < s.len()
        invariant
            from <= q <= s.len(),
            using_from(s@, from as int) == using_from(s@, q as int),
        decreases s.len() - q,
    {
        if text::starts_with_at(s, q, " using ") && text::is_last_word(s, q + " using ".len()) {
            return Some(q);
        }
        q += 1;
    }
    None
}

// ---------------------------------------------------------------------------
// Lifecycle events
// ---------------------------------------------------------------------------

/// `[marking …]`
pub open spec fn marking_event(s: Seq<u8>) -> Option<EventModel> {
    let f = after_address(s, "[marking ".spec_bytes().len() as int);
    match function_at(s, f, Tail::Marking) {
        Some(p) => if p.extra < s.len() {
            Some(
                EventModel::Marking {
                    name: text_of(s, p.name_start, p.name_end),
                    sfi: addr_of(s, p.sfi_start, p.sfi_end),
                    target: tier_of(s, p.tier_start, p.tier_end),
                    reason: text_of(s, p.extra, s.len() - 1),
                },
            )
        } else {
            None
        },
        None => None,
    }
}

/// `[compiling method …]`
pub open spec fn start_event(s: Seq<u8>) -> Option<EventModel> {
    let f = after_address(s, "[compiling method ".spec_bytes().len() as int);
    match function_at(s, f, Tail::Start) {
        Some(p) => Some(
            EventModel::CompileStart {
                name: text_of(s, p.name_start, p.name_end),
                sfi: addr_of(s, p.sfi_start, p.sfi_end),
                target: tier_of(s, p.tier_start, p.tier_end),
                osr: p.extra == 1,
            },
        ),
        None => None,
    }
}

/// `[completed compiling …]`
pub open spec fn done_event(s: Seq<u8>) -> Option<EventModel> {
    let f = after_address(s, "[completed compiling ".spec_bytes().len() as int);
    match function_at(s, f, Tail::Done) {
        Some(p) => Some(
            EventModel::CompileDone {
                name: text_of(s, p.name_start, p.name_end),
                sfi: addr_of(s, p.sfi_start, p.sfi_end),
                target: tier_of(s, p.tier_start, p.tier_end),
                osr: p.extra == 1,
            },
        ),
        None => None,
    }
}

/// The numbers of a bailout line, whose `opt id` starts at `o`.
pub open spec fn deopt_numbers(s: Seq<u8>, o: int) -> (Option<u32>, Option<u32>) {
    let oe = run_end(s, o, ByteClass::Digit);
    let b = oe + ", bytecode offset ".spec_bytes().len();
    (decimal_u32(s, o, oe), decimal_u32(s, b, run_end(s, b, ByteClass::Digit)))
}

/// The bailout whose kind is `k..c` and whose reason starts at `r` and is the
/// shortest from `q` on that lets the rest of the line match.
pub open spec fn deopt_from(s: Seq<u8>, k: int, c: int, r: int, q: int) -> Option<EventModel>
    decreases s.len() - q,
{
    if q < 0 || q >= s.len() {
        None
    } else if occurs_at(s, q, "): begin. deoptimizing ".spec_bytes()) {
        let f = after_address(s, q + "): begin. deoptimizing ".spec_bytes().len());
        match function_at(s, f, Tail::Deopt) {
            Some(p) => Some(
                EventModel::DeoptBegin {
                    kind: text_of(s, k, c),
                    reason: text_of(s, r, q),
                    name: text_of(s, p.name_start, p.name_end),
                    sfi: addr_of(s, p.sfi_start, p.sfi_end),
                    tier: tier_of(s, p.tier_start, p.tier_end),
                    opt_id: deopt_numbers(s, p.extra).0,
                    bytecode_offset: deopt_numbers(s, p.extra).1,
                },
            ),
            None => deopt_from(s, k, c, r, q + 1),
        }
    } else {
        deopt_from(s, k, c, r, q + 1)
    }
}

/// `[bailout (kind: …`
pub open spec fn deopt_event(s: Seq<u8>) -> Option<EventModel> {
    let k = "[bailout (kind: ".spec_bytes().len() as int;
    if !occurs_at(s, 0, "[bailout (kind: ".spec_bytes()) {
        None
    } else {
        match find_byte_in(s, k, s.len() as int, 0x2c) {
            Some(c) => {
                let r = c + ", reason: ".spec_bytes().len();
                if c > k && occurs_at(s, c, ", reason: ".spec_bytes()) {
                    deopt_from(s, k, c, r, r)
                } else {
                    None
                }
            },
            None => None,
        }
    }
}

/// `[bailout end. code_invalidation: …]`
pub open spec fn deopt_end_event(s: Seq<u8>) -> Option<EventModel> {
    let w = "[bailout end. code_invalidation: ".spec_bytes().len() as int;
    let e = run_end(s, w, ByteClass::WideWord);
    if occurs_at(s, 0, "[bailout end. code_invalidation: ".spec_bytes()) && e > w && closes_after(
        s,
        e,
    ) {
        Some(EventModel::DeoptEnd { invalidated: word_is(s, w, e, "invalidated".spec_bytes()) })
    } else {
        None
    }
}

/// The end of the run from `i` on without a comma or a closing bracket.
pub open spec fn name_stop(s: Seq<u8>, i: int) -> int
    decreases s.len() - i,
{
    if 0 <= i < s.len() && s[i] != 0x2c && s[i] != 0x5d {
        name_stop(s, i + 1)
    } else {
        i
    }
}

/// The offset of an OSR line whose function's name ends at `e`.
pub open spec fn osr_offset(s: Seq<u8>, e: int) -> Option<u32> {
    let d = e + ", osr offset: ".spec_bytes().len();
    if occurs_at(s, e, ", osr offset: ".spec_bytes()) {
        decimal_u32(s, d, run_end(s, d, ByteClass::Digit))
    } else {
        None
    }
}

/// `[OSR - <what>. function: <name>…]`
pub open spec fn osr_event(s: Seq<u8>) -> Option<EventModel> {
    let w = "[OSR - ".spec_bytes().len() as int;
    match find_byte_in(s, w, s.len() as int, 0x2e) {
        Some(d) => {
            let n = d + ". function: ".spec_bytes().len();
            let e = name_stop(s, n);
            if occurs_at(s, d, ". function: ".spec_bytes()) && closes_after(s, e) {
                Some(
                    EventModel::Osr {
                        what: text_of(s, w, d),
                        name: text_of(s, n, e),
                        osr_offset: osr_offset(s, e),
                    },
                )
            } else {
                None
            }
        },
        None => None,
    }
}

/// The event that a bracketed line reports. Programs print bracketed lines of
/// their own, so a line that does not match exactly is no event.
pub open spec fn event_of(s: Seq<u8>) -> Option<EventModel> {
    if occurs_at(s, 0, "[marking ".spec_bytes()) {
        marking_event(s)
    } else if occurs_at(s, 0, "[compiling method ".spec_bytes()) {
        start_event(s)
    } else if occurs_at(s, 0, "[completed compiling ".spec_bytes()) {
        done_event(s)
    } else if occurs_at(s, 0, "[bailout (".spec_bytes()) {
        deopt_event(s)
    } else if occurs_at(s, 0, "[bailout end".spec_bytes()) {
        deopt_end_event(s)
    } else if occurs_at(s, 0, "[OSR - ".spec_bytes()) {
        osr_event(s)
    } else {
        None
    }
}

/// The view of an optional event.
pub open spec fn event_model(event: Option<EventKind>) -> Option<EventModel> {
    match event {
        Some(e) => Some(e@),
        None => None,
    }
}

fn parse_marking(s: &[u8]) -> (event: Option<EventKind>)
    requires
        occurs_at(s@, 0, "[marking ".spec_bytes()),
    ensures
        event_model(event) == marking_event(s@),
{
    let f: usize = skip_address(s, "[marking ".len());
    match find_function(s, f, Tail::Marking) {
        Some(p) => {
            if p.extra >= s.len() {
                return None;
            }
            Some(
                EventKind::Marking {
                    name: text::text_between(s, p.name_start, p.name_end),
                    sfi: parse_addr(s, p.sfi_start, p.sfi_end),
                    target: parse_tier(s, p.tier_start, p.tier_end),
                    reason: text::text_between(s, p.extra, s.len() - 1),
                },
            )
        },
        None => None,
    }
}

fn parse_start(s: &[u8]) -> (event: Option<EventKind>)
    requires
        occurs_at(s@, 0, "[compiling method ".spec_bytes()),
    ensures
        event_model(event) == start_event(s@),
{
    let f: usize = skip_address(s, "[compiling method ".len());
    match find_function(s, f, Tail::Start) {
        Some(p) => Some(
            EventKind::CompileStart {
                name: text::text_between(s, p.name_start, p.name_end),
                sfi: parse_addr(s, p.sfi_start, p.sfi_end),
                target: parse_tier(s, p.tier_start, p.tier_end),
                osr: p.extra == 1,
            },
        ),
        None => None,
    }
}

fn parse_done(s: &[u8]) -> (event: Option<EventKind>)
    requires
        occurs_at(s@, 0, "[completed compiling ".spec_bytes()),
    ensures
        event_model(event) == done_event(s@),
{
    let f: usize = skip_address(s, "[completed compiling ".len());
    match find_function(s, f, Tail::Done) {
        Some(p) => Some(
            EventKind::CompileDone {
                name: text::text_between(s, p.name_start, p.name_end),
                sfi: parse_addr(s, p.sfi_start, p.sfi_end),
                target: parse_tier(s, p.tier_start, p.tier_end),
                osr: p.extra == 1,
            },
        ),
        None => None,
    }
}

fn read_deopt_numbers(s: &[u8], o: usize) -> (numbers: (Option<u32>, Option<u32>))
    requires
        o <= s.len(),
        occurs_at(
            s@,
            run_end(s@, o as int, ByteClass::Digit),
            ", bytecode offset ".spec_bytes(),
        ),
    ensures
        numbers == deopt_numbers(s@, o as int),
{
    let oe: usize = text::skip(s, o, ByteClass::Digit);
    let b: usize = oe + ", bytecode offset ".len();
    let be: usize = text::skip(s, b, ByteClass::Digit);
    (text::parse_u32(s, o, oe), text::parse_u32(s, b, be))
}

proof fn lemma_function_tail(s: Seq<u8>, n: int, q: int, tail: Tail)
    ensures
        function_from(s, n, q, tail) matches Some(p) ==> exists|f: int|
            tail_places(s, f, tail) == Some((p.tier_start, p.tier_end, p.extra)),
    decreases s.len() - q,
{
    if 0 <= q < s.len() {
        if let Some((h, he, f)) = sfi_after(s, q) {
            if let Some((a, e, k)) = tail_places(s, f, tail) {
                assert(tail_places(s, f, tail) == Some((a, e, k)));
            } else {
                lemma_function_tail(s, n, q + 1, tail);
            }
        } else {
            lemma_function_tail(s, n, q + 1, tail);
        }
    }
}

fn parse_deopt(s: &[u8]) -> (event: Option<EventKind>)
    ensures
        event_model(event) == deopt_event(s@),
{
    if !text::starts_with_at(s, 0, "[bailout (kind: ") {
        return None;
    }
    let k: usize = "[bailout (kind: ".len();
    let c: usize = match text::find_byte(s, k, s.len(), 0x2c) {
        Some(c) => c,
        None => {
            return None;
        },
    };
    if c == k || !text::starts_with_at(s, c, ", reason: ") {
        return None;
    }
    let r: usize = c + ", reason: ".len();
    let mut q: usize = r;
    while q < s.len()
        invariant
            k <= c <= r <= q <= s.len(),
            deopt_event(s@) == deopt_from(s@, k as int, c as int, r as int, q as int),
        decreases s.len() - q,
    {
        if text::starts_with_at(s, q, "): begin. deoptimizing ") {
            let f: usize = skip_address(s, q + "): begin. deoptimizing ".len());
            if let Some(p) = find_function(s, f, Tail::Deopt) {
                proof {
                    let start = f + "<JSFunction".spec_bytes().len();
                    let n = if byte_is(s@, start, 0x20) {
                        start + 1
                    } else {
                        start
                    };
                    lemma_function_tail(s@, n, n, Tail::Deopt);
                }
                let numbers = read_deopt_numbers(s, p.extra);
                return Some(
                    EventKind::DeoptBegin {
                        kind: text::text_between(s, k, c),
                        reason: text::text_between(s, r, q),
                        name: text::text_between(s, p.name_start, p.name_end),
                        sfi: parse_addr(s, p.sfi_start, p.sfi_end),
                        tier: parse_tier(s, p.tier_start, p.tier_end),
                        opt_id: numbers.0,
                        bytecode_offset: numbers.1,
                    },
                );
            }
        }
        q += 1;
    }
    None
}

fn parse_deopt_end(s: &[u8]) -> (event: Option<EventKind>)
    ensures
        event_model(event) == deopt_end_event(s@),
{
    if !text::starts_with_at(s, 0, "[bailout end. code_invalidation: ") {
        return None;
    }
    let w: usize = "[bailout end. code_invalidation: ".len();
    let e: usize = text::skip(s, w, ByteClass::WideWord);
    if e > w && e < s.len() && s[s.len() - 1] == 0x5d {
        Some(EventKind::DeoptEnd { invalidated: text::slice_is(s, w, e, "invalidated") })
    } else {
        None
    }
}

fn parse_osr(s: &[u8]) -> (event: Option<EventKind>)
    requires
        occurs_at(s@, 0, "[OSR - ".spec_bytes()),
    ensures
        event_model(event) == osr_event(s@),
{
    let w: usize = "[OSR - ".len();
    let d: usize = match text::find_byte(s, w, s.len(), 0x2e) {
        Some(d) => d,
        None => {
            return None;
        },
    };
    if !text::starts_with_at(s, d, ". function: ") {
        return None;
    }
    let n: usize = d + ". function: ".len();
    let mut e: usize = n;
    while e < s.len() && s[e] != 0x2c && s[e] != 0x5d
        invariant
            n <= e <= s.len(),
            name_stop(s@, n as int) == name_stop(s@, e as int),
        decreases s.len() - e,
    {
        e += 1;
    }
    if !(e < s.len() && s[s.len() - 1] == 0x5d) {
        return None;
    }
    let osr_offset: Option<u32> = if text::starts_with_at(s, e, ", osr offset: ") {
        let o: usize = e + ", osr offset: ".len();
        let oe: usize = text::skip(s, o, ByteClass::Digit);
        text::parse_u32(s, o, oe)
    } else {
        None
    };
    Some(
        EventKind::Osr {
            what: text::text_between(s, w, d),
            name: text::text_between(s, n, e),
            osr_offset,
        },
    )
}

/// Reads the event that a bracketed line reports.
pub fn parse_event(s: &[u8]) -> (event: Option<EventKind>)
    ensures
        event_model(event) == event_of(s@),
{
    if text::starts_with_at(s, 0, "[marking ") {
        parse_marking(s)
    } else if text::starts_with_at(s, 0, "[compiling method ") {
        parse_start(s)
    } else if text::starts_with_at(s, 0, "[completed compiling ") {
        parse_done(s)
    } else if text::starts_with_at(s, 0, "[bailout (") {
        parse_deopt(s)
    } else if text::starts_with_at(s, 0, "[bailout end") {
        parse_deopt_end(s)
    } else if text::starts_with_at(s, 0, "[OSR - ") {
        parse_osr(s)
    } else {
        None
    }
}

// ---------------------------------------------------------------------------
// Lines
// ---------------------------------------------------------------------------

/// The first line of a code object that is printed on its own: `0x…: [Code]`,
/// which may say behind it where the object lives.
pub open spec fn code_object(s: Seq<u8>) -> bool {
    let h = run_end(s, 2, ByteClass::Hex);
    let e = h + ": [Code]".spec_bytes().len();
    &&& occurs_at(s, 0, "0x".spec_bytes())
    &&& h > 2
    &&& occurs_at(s, h, ": [Code]".spec_bytes())
    &&& e >= text::trimmed_end(s, 0, s.len() as int) || byte_is(s, e, 0x20)
}

/// Does a code object that is printed on its own start here?
pub fn is_code_object(s: &[u8]) -> (yes: bool)
    ensures
        yes == code_object(s@),
{
    proof {
        reveal_strlit("0x");
        vstd::utf8::is_ascii_chars_encode_utf8("0x"@);
    }
    if !text::starts_with_at(s, 0, "0x") {
        return false;
    }
    let h: usize = text::skip(s, 2, ByteClass::Hex);
    if h <= 2 || !text::starts_with_at(s, h, ": [Code]") {
        return false;
    }
    let e: usize = h + ": [Code]".len();
    e >= text::trim_end(s, 0, s.len()) || text::byte_at(s, e, 0x20)
}

/// The section of a code dump that a line opens.
pub open spec fn code_banner(s: Seq<u8>) -> Option<Seq<char>> {
    let e = text::trimmed_end(s, 0, s.len() as int);
    if word_is(s, 0, e, "--- Raw source ---".spec_bytes()) {
        Some("Raw source"@)
    } else if word_is(s, 0, e, "--- Optimized code ---".spec_bytes()) || code_object(s) {
        Some("Optimized code"@)
    } else {
        None
    }
}

/// What a line is to the indexer.
pub open spec fn boundary(s: Seq<u8>) -> BoundaryModel {
    if occurs_at(s, 0, "-----".spec_bytes()) {
        match banner_name(s) {
            Some((a, e)) => BoundaryModel::Banner { name: text_of(s, a, e) },
            None => if is_rule_line(s) {
                BoundaryModel::Rule
            } else {
                BoundaryModel::Content
            },
        }
    } else if code_banner(s) is Some {
        BoundaryModel::CodeBanner { name: code_banner(s)->0 }
    } else if word_is(
        s,
        0,
        text::trimmed_end(s, 0, s.len() as int),
        "--- End code ---".spec_bytes(),
    ) {
        BoundaryModel::CodeEnd
    } else if occurs_at(s, 0, "Compiling ".spec_bytes()) {
        match anchored(s, "Compiling ".spec_bytes(), Tail::With) {
            Some((he, p)) => BoundaryModel::Compiling {
                addr: addr_of(s, "Compiling ".spec_bytes().len() as int, he),
                name: text_of(s, p.name_start, p.name_end),
                sfi: addr_of(s, p.sfi_start, p.sfi_end),
                tier: tier_of(s, p.tier_start, p.tier_end),
            },
            None => BoundaryModel::Content,
        }
    } else if occurs_at(s, 0, "Function: ".spec_bytes()) {
        match anchored(s, "Function: ".spec_bytes(), Tail::Bare) {
            Some((he, p)) => BoundaryModel::Function {
                addr: addr_of(s, "Function: ".spec_bytes().len() as int, he),
                name: text_of(s, p.name_start, p.name_end),
                sfi: addr_of(s, p.sfi_start, p.sfi_end),
            },
            None => BoundaryModel::Content,
        }
    } else if occurs_at(s, 0, "Begin compiling method ".spec_bytes()) {
        let b = "Begin compiling method ".spec_bytes().len() as int;
        match using_from(s, b) {
            Some(q) => {
                let t = q + " using ".spec_bytes().len();
                BoundaryModel::Begin { name: text_of(s, b, q), tier: tier_of(s, t, word_end(s, t)) }
            },
            None => BoundaryModel::Content,
        }
    } else if occurs_at(s, 0, "Finished compiling method ".spec_bytes()) {
        match using_from(s, "Finished compiling method ".spec_bytes().len() as int) {
            Some(_) => BoundaryModel::Finished,
            None => BoundaryModel::Content,
        }
    } else if byte_is(s, 0, 0x5b) {
        match event_of(s) {
            Some(event) => BoundaryModel::Event(event),
            None => BoundaryModel::Content,
        }
    } else {
        BoundaryModel::Content
    }
}

fn find_code_banner(s: &[u8]) -> (name: Option<String>)
    ensures
        crate::model::opt_text(name) == code_banner(s@),
{
    let e: usize = text::trim_end(s, 0, s.len());
    if text::slice_is(s, 0, e, "--- Raw source ---") {
        Some(text::owned("Raw source"))
    } else if text::slice_is(s, 0, e, "--- Optimized code ---") || is_code_object(s) {
        Some(text::owned("Optimized code"))
    } else {
        None
    }
}

fn classify_anchor(s: &[u8]) -> (b: Boundary)
    requires
        occurs_at(s@, 0, "Compiling ".spec_bytes()) || occurs_at(s@, 0, "Function: ".spec_bytes()),
        !occurs_at(s@, 0, "-----".spec_bytes()),
        code_banner(s@) is None,
        !word_is(
            s@,
            0,
            text::trimmed_end(s@, 0, s@.len() as int),
            "--- End code ---".spec_bytes(),
        ),
    ensures
        b@ == boundary(s@),
{
    if text::starts_with_at(s, 0, "Compiling ") {
        match find_anchored(s, "Compiling ", Tail::With) {
            Some((he, p)) => Boundary::Compiling {
                addr: parse_addr(s, "Compiling ".len(), he),
                name: text::text_between(s, p.name_start, p.name_end),
                sfi: parse_addr(s, p.sfi_start, p.sfi_end),
                tier: parse_tier(s, p.tier_start, p.tier_end),
            },
            None => Boundary::Content,
        }
    } else {
        match find_anchored(s, "Function: ", Tail::Bare) {
            Some((he, p)) => Boundary::Function {
                addr: parse_addr(s, "Function: ".len(), he),
                name: text::text_between(s, p.name_start, p.name_end),
                sfi: parse_addr(s, p.sfi_start, p.sfi_end),
            },
            None => Boundary::Content,
        }
    }
}

/// Classifies a line for the indexer.
pub fn classify(s: &[u8]) -> (b: Boundary)
    ensures
        b@ == boundary(s@),
{
    if text::starts_with_at(s, 0, "-----") {
        if let Some((a, e)) = find_banner_name(s) {
            return Boundary::Banner { name: text::text_between(s, a, e) };
        }
        if check_rule(s) {
            return Boundary::Rule;
        }
        return Boundary::Content;
    }
    if let Some(name) = find_code_banner(s) {
        return Boundary::CodeBanner { name };
    }
    let end: usize = text::trim_end(s, 0, s.len());
    if text::slice_is(s, 0, end, "--- End code ---") {
        return Boundary::CodeEnd;
    }
    if text::starts_with_at(s, 0, "Compiling ") || text::starts_with_at(s, 0, "Function: ") {
        return classify_anchor(s);
    }
    if text::starts_with_at(s, 0, "Begin compiling method ") {
        let b: usize = "Begin compiling method ".len();
        return match find_using(s, b) {
            Some(q) => {
                let t: usize = q + " using ".len();
                let e: usize = text::skip_word(s, t);
                Boundary::Begin {
                    name: text::text_between(s, b, q),
                    tier: parse_tier(s, t, e),
                }
            },
            None => Boundary::Content,
        };
    }
    if text::starts_with_at(s, 0, "Finished compiling method ") {
        return match find_using(s, "Finished compiling method ".len()) {
            Some(_) => Boundary::Finished,
            None => Boundary::Content,
        };
    }
    if text::byte_at(s, 0, 0x5b) {
        if let Some(event) = parse_event(s) {
            return Boundary::Event(event);
        }
    }
    Boundary::Content
}

} // verus!
