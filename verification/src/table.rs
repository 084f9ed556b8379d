use vstd::prelude::*;

verus! {

/// Error reported when a pattern line is neither empty nor exactly four
/// characters long: the offending line's position and its length.
#[derive(Debug)]
pub struct LoadError {
    pub line_index: usize,
    pub line_len: usize,
}

/// The table backing the symmetric selector strategy: a collection of
/// distinct four-character words, each stored as ASCII bytes.
#[derive(Debug)]
pub struct PrefixTable {
    pub words: Vec<Vec<u8>>,
}

/// The contents of a list of byte lines, as mathematical sequences.
pub open spec fn lines_view(lines: Seq<Vec<u8>>) -> Seq<Seq<u8>> {
    lines.map_values(|l: Vec<u8>| l@)
}

/// A pattern line is acceptable when it is empty (and skipped) or exactly
/// four characters long.
pub open spec fn line_ok(line: Seq<u8>) -> bool {
    line.len() == 0 || line.len() == 4
}

/// Every line of the pattern input is acceptable.
pub open spec fn lines_ok(lines: Seq<Seq<u8>>) -> bool {
    forall|i: int| 0 <= i < lines.len() ==> line_ok(#[trigger] lines[i])
}

impl View for PrefixTable {
    type V = Seq<Seq<u8>>;

    open spec fn view(&self) -> Seq<Seq<u8>> {
        self.words@.map_values(|w: Vec<u8>| w@)
    }
}

impl PrefixTable {
    /// Every stored word has exactly four characters and no word is stored
    /// twice.
    pub open spec fn wf(self) -> bool {
        &&& forall|i: int| 0 <= i < self@.len() ==> (#[trigger] self@[i]).len() == 4
        &&& self@.no_duplicates()
    }

    /// An empty table.
    pub fn new() -> (r: PrefixTable)
        ensures
            r.wf(),
            r@ =~= Seq::<Seq<u8>>::empty(),
    {
        PrefixTable { words: Vec::new() }
    }

    /// The number of stored words.
    pub fn len(&self) -> (r: usize)
        ensures
            r == self@.len(),
    {
        self.words.len()
    }

    /// Membership test by word contents.
    pub fn contains(&self, w: &Vec<u8>) -> (r: bool)
        ensures
            r == self@.contains(w@),
    {
        let mut i: usize = 0;
        while i < self.words.len()
            invariant
                i <= self@.len(),
                forall|j: int| 0 <= j < i ==> self@[j] != w@,
            decreases self@.len() - i,
        {
            if bytes_eq(&self.words[i], w) {
                proof {
                    assert(self@[i as int] == w@);
                }
                return true;
            }
            i = i + 1;
        }
        false
    }

    /// Inserts a word unless an equal word is already stored; preserves
    /// well-formedness and adds exactly the given word's contents.
    pub fn insert(&mut self, w: Vec<u8>)
        requires
            old(self).wf(),
            w@.len() == 4,
        ensures
            final(self).wf(),
            forall|x: Seq<u8>|
                final(self)@.contains(x) <==> (old(self)@.contains(x) || x == w@),
    {
        let already = self.contains(&w);
        if !already {
            let ghost before = self@;
            let ghost wv = w@;
            self.words.push(w);
            proof {
                assert(self@ =~= before.push(wv));
                assert(forall|k: int| 0 <= k < before.len() ==> #[trigger] self@[k] == before[k]);
                assert(self@[before.len() as int] == wv);
                assert forall|x: Seq<u8>|
                    final(self)@.contains(x) <==> (before.contains(x) || x == wv) by {
                    if self@.contains(x) {
                        let k = choose|k: int| 0 <= k < self@.len() && #[trigger] self@[k] == x;
                        if k < before.len() {
                            assert(before[k] == x);
                        } else {
                            assert(x == wv);
                        }
                    }
                    if before.contains(x) {
                        let k = choose|k: int| 0 <= k < before.len() && #[trigger] before[k] == x;
                        assert(self@[k] == x);
                    }
                    if x == wv {
                        assert(self@.contains(x)) by {
                            assert(self@[before.len() as int] == x);
                        }
                    }
                }
                assert(self@.no_duplicates()) by {
                    assert(forall|k: int| 0 <= k < before.len() ==> #[trigger] before[k] != wv);
                }
            }
        }
    }
}

/// Byte-for-byte equality of two words.
fn bytes_eq(a: &Vec<u8>, b: &Vec<u8>) -> (r: bool)
    ensures
        r == (a@ == b@),
{
    if a.len() != b.len() {
        return false;
    }
    let mut i: usize = 0;
    while i < a.len()
        invariant
            i <= a@.len(),
            a@.len() == b@.len(),
            forall|j: int| 0 <= j < i ==> a@[j] == b@[j],
        decreases a@.len() - i,
    {
        if a[i] != b[i] {
            return false;
        }
        i = i + 1;
    }
    proof {
        assert(a@ =~= b@);
    }
    true
}

/// Builds the pattern table from the lines of the pattern input. Empty lines
/// are skipped; a line of any other length than four characters rejects the
/// whole input, reporting the first offending line; duplicate words are
/// stored once. Loading succeeds exactly when every line is acceptable.
pub fn load_prefixes(lines: &Vec<Vec<u8>>) -> (r: Result<PrefixTable, LoadError>)
    ensures
        r is Ok <==> lines_ok(lines_view(lines@)),
        r matches Ok(t) ==> {
            &&& t.wf()
            &&& forall|w: Seq<u8>|
                t@.contains(w) <==> (w.len() == 4 && lines_view(lines@).contains(w))
        },
        r matches Err(e) ==> {
            &&& e.line_index < lines@.len()
            &&& e.line_len == lines_view(lines@)[e.line_index as int].len()
            &&& !line_ok(lines_view(lines@)[e.line_index as int])
            &&& forall|j: int| 0 <= j < e.line_index ==> line_ok(#[trigger] lines_view(lines@)[j])
        },
{
    let ghost lv = lines_view(lines@);
    let mut table = PrefixTable::new();
    let mut i: usize = 0;
    while i < lines.len()
        invariant
            i <= lines@.len(),
            lv == lines_view(lines@),
            lv.len() == lines@.len(),
            table.wf(),
            forall|j: int| 0 <= j < i ==> line_ok(#[trigger] lv[j]),
            forall|w: Seq<u8>|
                table@.contains(w) <==> (w.len() == 4 && lv.take(i as int).contains(w)),
        decreases lines@.len() - i,
    {
        proof {
            assert(lv[i as int] == lines@[i as int]@);
        }
        let len = lines[i].len();
        if len == 0 {
            // an empty line is skipped
        } else if len != 4 {
            return Err(LoadError { line_index: i, line_len: len });
        } else {
            let word = clone_bytes(&lines[i]);
            table.insert(word);
        }
        proof {
            assert(lv.take(i + 1) =~= lv.take(i as int).push(lv[i as int]));
            assert forall|w: Seq<u8>|
                lv.take(i + 1).contains(w) <==> (lv.take(i as int).contains(w)
                    || w == lv[i as int]) by {
                if lv.take(i + 1).contains(w) {
                    let k = choose|k: int|
                        0 <= k < lv.take(i + 1).len() && #[trigger] lv.take(i + 1)[k] == w;
                    if k < i {
                        assert(lv.take(i as int)[k] == w);
                    }
                }
                if lv.take(i as int).contains(w) {
                    let k = choose|k: int|
                        0 <= k < lv.take(i as int).len() && #[trigger] lv.take(i as int)[k] == w;
                    assert(lv.take(i + 1)[k] == w);
                }
                if w == lv[i as int] {
                    assert(lv.take(i + 1)[i as int] == w);
                }
            }
        }
        i = i + 1;
    }
    proof {
        assert(lv.take(lines@.len() as int) =~= lv);
    }
    Ok(table)
}

/// Copies a word.
fn clone_bytes(a: &Vec<u8>) -> (r: Vec<u8>)
    ensures
        r@ == a@,
{
    let mut r: Vec<u8> = Vec::new();
    let mut i: usize = 0;
    while i < a.len()
        invariant
            i <= a@.len(),
            r@.len() == i,
            forall|j: int| 0 <= j < i ==> r@[j] == a@[j],
        decreases a@.len() - i,
    {
        r.push(a[i]);
        i = i + 1;
    }
    proof {
        assert(r@ =~= a@);
    }
    r
}

/// Law: a well-formed table stores as many words as it has distinct members.
pub proof fn lemma_table_size_counts_distinct_words(t: PrefixTable)
    requires
        t.wf(),
    ensures
        t.words@.len() == t@.to_set().len(),
{
    t@.unique_seq_to_set();
}

/// Law: a table whose members are exactly the words of an acceptable
/// pattern input — as `load_prefixes` ensures of the table it builds — is
/// exactly as large as the number of distinct non-empty lines of that input.
pub proof fn lemma_loaded_table_counts_distinct_lines(t: PrefixTable, lines: Seq<Seq<u8>>)
    requires
        t.wf(),
        lines_ok(lines),
        forall|w: Seq<u8>| #[trigger] t@.contains(w) <==> (w.len() == 4 && lines.contains(w)),
    ensures
        t.words@.len() == Set::new(|w: Seq<u8>| lines.contains(w) && w.len() != 0).len(),
{
    let distinct = Set::new(|w: Seq<u8>| lines.contains(w) && w.len() != 0);
    assert(t@.to_set() =~= distinct) by {
        assert forall|w: Seq<u8>| #[trigger] distinct.contains(w) implies t@.to_set().contains(
            w,
        ) by {
            let k = choose|k: int| 0 <= k < lines.len() && #[trigger] lines[k] == w;
            assert(line_ok(lines[k]));
        }
    }
    t@.unique_seq_to_set();
}

} // verus!
