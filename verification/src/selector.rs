use vstd::prelude::*;
use crate::address::Address;
use crate::table::{LoadError, PrefixTable, line_ok, lines_ok, lines_view, load_prefixes};

verus! {

/// The match strategy applied to each derived address: chosen once at
/// startup, pure and stateless afterwards.
#[derive(Debug)]
pub enum Selector {
    /// Accepts every address.
    MatchAll,
    /// Accepts an address whose data portion starts with the literal prefix.
    PrefixMatch { prefix: Vec<u8> },
    /// Accepts an address whose data portion ends with the literal suffix.
    SuffixMatch { suffix: Vec<u8> },
    /// Accepts an address whose leading and trailing four-character blocks
    /// are both table words, or whose leading and trailing four characters
    /// all repeat one character.
    SymmetricTableMatch { table: PrefixTable },
}

/// The data portion starts with the pattern.
pub open spec fn starts_with(data: Seq<u8>, p: Seq<u8>) -> bool {
    p.len() <= data.len() && data.take(p.len() as int) == p
}

/// The data portion ends with the pattern.
pub open spec fn ends_with(data: Seq<u8>, s: Seq<u8>) -> bool {
    s.len() <= data.len() && data.skip(data.len() - s.len()) == s
}

/// The first four and the last four characters of a 40-character data
/// portion are all one and the same character.
pub open spec fn repeated_ends(data: Seq<u8>) -> bool {
    &&& data[1] == data[0]
    &&& data[2] == data[0]
    &&& data[3] == data[0]
    &&& data[36] == data[0]
    &&& data[37] == data[0]
    &&& data[38] == data[0]
    &&& data[39] == data[0]
}

/// The symmetric strategy: both the leading and the trailing four-character
/// block are table words, or both ends repeat a single character.
pub open spec fn table_match(table: Seq<Seq<u8>>, data: Seq<u8>) -> bool {
    (table.contains(data.take(4)) && table.contains(data.skip(36))) || repeated_ends(data)
}

/// What each strategy accepts, as a pure predicate over the address's data
/// portion.
pub open spec fn selector_matches(sel: Selector, data: Seq<u8>) -> bool {
    match sel {
        Selector::MatchAll => true,
        Selector::PrefixMatch { prefix } => starts_with(data, prefix@),
        Selector::SuffixMatch { suffix } => ends_with(data, suffix@),
        Selector::SymmetricTableMatch { table } => table_match(table@, data),
    }
}

impl Selector {
    /// Evaluates the strategy on one address. Pure: the selector is never
    /// changed after construction.
    pub fn matches(&self, addr: &Address) -> (r: bool)
        requires
            addr.wf(),
        ensures
            r == selector_matches(*self, addr.data@),
    {
        match self {
            Selector::MatchAll => true,
            Selector::PrefixMatch { prefix } => addr_has_prefix(addr, prefix),
            Selector::SuffixMatch { suffix } => addr_has_suffix(addr, suffix),
            Selector::SymmetricTableMatch { table } => addr_matches_map(table, addr),
        }
    }
}

/// True exactly when the address's data portion starts with the literal
/// prefix, character for character; a prefix longer than the data portion
/// matches nothing.
pub fn addr_has_prefix(addr: &Address, prefix: &Vec<u8>) -> (r: bool)
    requires
        addr.wf(),
    ensures
        r == starts_with(addr.data@, prefix@),
{
    if prefix.len() > addr.data.len() {
        return false;
    }
    let mut i: usize = 0;
    while i < prefix.len()
        invariant
            i <= prefix@.len(),
            prefix@.len() <= addr.data@.len(),
            forall|j: int| 0 <= j < i ==> addr.data@[j] == prefix@[j],
        decreases prefix@.len() - i,
    {
        if addr.data[i] != prefix[i] {
            proof {
                assert(addr.data@.take(prefix@.len() as int)[i as int] == addr.data@[i as int]);
            }
            return false;
        }
        i = i + 1;
    }
    proof {
        assert(addr.data@.take(prefix@.len() as int) =~= prefix@);
    }
    true
}

/// True exactly when the address's data portion ends with the literal
/// suffix, character for character; a suffix longer than the data portion
/// matches nothing.
pub fn addr_has_suffix(addr: &Address, suffix: &Vec<u8>) -> (r: bool)
    requires
        addr.wf(),
    ensures
        r == ends_with(addr.data@, suffix@),
{
    if suffix.len() > addr.data.len() {
        return false;
    }
    let offset = addr.data.len() - suffix.len();
    let mut k: usize = offset;
    while k < addr.data.len()
        invariant
            offset <= k <= addr.data@.len(),
            suffix@.len() <= addr.data@.len(),
            offset == addr.data@.len() - suffix@.len(),
            forall|j: int| offset <= j < k ==> addr.data@[j] == suffix@[j - offset],
        decreases addr.data@.len() - k,
    {
        if addr.data[k] != suffix[k - offset] {
            proof {
                assert(addr.data@.skip(offset as int)[k - offset] == addr.data@[k as int]);
            }
            return false;
        }
        k = k + 1;
    }
    proof {
        assert(addr.data@.skip(offset as int) =~= suffix@);
    }
    true
}

/// The symmetric test: the leading and trailing four-character blocks are
/// both in the table, or the first four and last four characters all repeat
/// the first character.
pub fn addr_matches_map(prefixes: &PrefixTable, addr: &Address) -> (r: bool)
    requires
        addr.wf(),
    ensures
        r == table_match(prefixes@, addr.data@),
{
    let head = subrange_bytes(&addr.data, 0, 4);
    let tail = subrange_bytes(&addr.data, 36, 40);
    proof {
        assert(head@ =~= addr.data@.take(4));
        assert(tail@ =~= addr.data@.skip(36));
    }
    if prefixes.contains(&head) && prefixes.contains(&tail) {
        return true;
    }
    let c = addr.data[0];
    addr.data[1] == c && addr.data[2] == c && addr.data[3] == c && addr.data[36] == c
        && addr.data[37] == c && addr.data[38] == c && addr.data[39] == c
}

/// Copies the half-open range `[from, to)` of a byte vector.
fn subrange_bytes(v: &Vec<u8>, from: usize, to: usize) -> (r: Vec<u8>)
    requires
        from <= to <= v@.len(),
    ensures
        r@ == v@.subrange(from as int, to as int),
{
    let mut r: Vec<u8> = Vec::new();
    let mut i: usize = from;
    while i < to
        invariant
            from <= i <= to <= v@.len(),
            r@.len() == i - from,
            forall|j: int| 0 <= j < i - from ==> r@[j] == v@[from + j],
        decreases to - i,
    {
        r.push(v[i]);
        i = i + 1;
    }
    proof {
        assert(r@ =~= v@.subrange(from as int, to as int));
    }
    r
}

/// Law: the repeated-character branch of the symmetric strategy does not
/// depend on the table. An address whose first four and last four data
/// characters all repeat one and the same character matches whatever the
/// table holds — the repeated word need not be stored in it.
pub proof fn lemma_repeated_ends_match_any_table(table: Seq<Seq<u8>>, data: Seq<u8>)
    requires
        repeated_ends(data),
    ensures
        table_match(table, data),
{
}

/// Builds the strategy that filters by a literal prefix.
pub fn select_prefix(prefix: Vec<u8>) -> (r: Selector)
    ensures
        r == (Selector::PrefixMatch { prefix }),
{
    Selector::PrefixMatch { prefix }
}

/// Builds the strategy that filters by a literal suffix.
pub fn select_suffix(suffix: Vec<u8>) -> (r: Selector)
    ensures
        r == (Selector::SuffixMatch { suffix }),
{
    Selector::SuffixMatch { suffix }
}

/// Builds the symmetric strategy from the lines of a pattern input, loading
/// them into a table; rejects the input exactly when some line is neither
/// empty nor four characters long.
pub fn select_from_lines(lines: &Vec<Vec<u8>>) -> (r: Result<Selector, LoadError>)
    ensures
        r is Ok <==> lines_ok(lines_view(lines@)),
        r matches Ok(s) ==> s matches Selector::SymmetricTableMatch { table } && table.wf()
            && (forall|w: Seq<u8>|
            table@.contains(w) <==> (w.len() == 4 && lines_view(lines@).contains(w))),
        r matches Err(e) ==> {
            &&& e.line_index < lines@.len()
            &&& e.line_len == lines_view(lines@)[e.line_index as int].len()
            &&& !line_ok(lines_view(lines@)[e.line_index as int])
        },
{
    match load_prefixes(lines) {
        Ok(table) => Ok(Selector::SymmetricTableMatch { table }),
        Err(e) => Err(e),
    }
}

} // verus!
