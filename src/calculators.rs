//! Simple calculators: one that gives every file the same value, and one
//! that numbers files in the order it sees them.
use vstd::prelude::*;
use crate::walker::{file_paths, lemma_file_paths_index, results_recorded, EntryKind, ToxicityIndicatorCalculator, WalkEntry};

verus! {

/// Relies on serde_json's derived `Clone` for `Value`: the copy equals the original.
pub assume_specification[ <serde_json::Value as Clone>::clone ](v: &serde_json::Value) -> (r: serde_json::Value)
    ensures
        r == *v,
;

/// The JSON number that holds `n`.
pub uninterp spec fn json_number(n: u64) -> serde_json::Value;

/// Relies on serde_json's `From<u64> for Value`: the number `n`, the same for the same `n`.
#[verifier::external_body]
fn number_value(n: u64) -> (r: serde_json::Value)
    ensures
        r == json_number(n),
{
    serde_json::Value::from(n)
}

/// The JSON string that holds `s`.
pub uninterp spec fn json_string(s: Seq<char>) -> serde_json::Value;

/// Relies on serde_json's `From<&str> for Value`: the string `s`, the same for the same `s`.
#[verifier::external_body]
fn string_value(s: &str) -> (r: serde_json::Value)
    ensures
        r == json_string(s@),
{
    serde_json::Value::from(s)
}

/// Gives every file the same value.
pub struct ConstantCalculator {
    name: String,
    value: serde_json::Value,
    seen: Ghost<Seq<Seq<char>>>,
}

impl ConstantCalculator {
    pub fn new(name: String, value: serde_json::Value) -> (r: ConstantCalculator)
        ensures
            r.spec_name() == name@,
            r.calls() == Seq::<Seq<char>>::empty(),
            r.produced() == Seq::<Option<serde_json::Value>>::empty(),
            r.value() == value,
    {
        let r = ConstantCalculator { name, value, seen: Ghost(Seq::empty()) };
        assert(r.produced() =~= Seq::<Option<serde_json::Value>>::empty());
        r
    }

    pub closed spec fn value(&self) -> serde_json::Value {
        self.value
    }
}

impl ToxicityIndicatorCalculator for ConstantCalculator {
    closed spec fn spec_name(&self) -> Seq<char> {
        self.name@
    }

    closed spec fn calls(&self) -> Seq<Seq<char>> {
        self.seen@
    }

    closed spec fn produced(&self) -> Seq<Option<serde_json::Value>> {
        Seq::new(self.seen@.len(), |i: int| Some(self.value))
    }

    fn name(&self) -> (r: String) {
        self.name.clone()
    }

    fn description(&self) -> String {
        String::from_str("The same value for every file")
    }

    fn calculate(&mut self, path: &str) -> (r: Result<serde_json::Value, String>)
        ensures
            r == Ok::<serde_json::Value, String>(old(self).value()),
            final(self).value() == old(self).value(),
    {
        let v = self.value.clone();
        let ghost before = self.produced();
        self.seen = Ghost(self.seen@.push(path@));
        assert(self.produced() =~= before.push(Some(v)));
        Ok(v)
    }
}

/// The value that a counting calculator started at `start` gives the file
/// it is handed `i`-th: `start + i`, or none once that leaves `u64`.
pub open spec fn count_value(start: int, i: int) -> Option<serde_json::Value> {
    if start + i < u64::MAX {
        Some(json_number((start + i) as u64))
    } else {
        None
    }
}

/// Numbers files from a starting count: the file it is handed `i`-th gets
/// the starting count plus `i`.
pub struct CountingCalculator {
    name: String,
    count: u64,
    start: Ghost<int>,
    seen: Ghost<Seq<Seq<char>>>,
}

impl CountingCalculator {
    #[verifier::type_invariant]
    spec fn counts_calls(self) -> bool {
        &&& 0 <= self.start@ <= u64::MAX
        &&& self.count == if self.start@ + self.seen@.len() < u64::MAX {
            self.start@ + self.seen@.len()
        } else {
            u64::MAX as int
        }
    }

    pub fn new(name: String, start: u64) -> (r: CountingCalculator)
        ensures
            r.spec_name() == name@,
            r.calls() == Seq::<Seq<char>>::empty(),
            r.produced() == Seq::<Option<serde_json::Value>>::empty(),
            r.count() == start,
            r.start() == start,
    {
        let r = CountingCalculator { name, count: start, start: Ghost(start as int), seen: Ghost(Seq::empty()) };
        assert(r.produced() =~= Seq::<Option<serde_json::Value>>::empty());
        r
    }

    /// The number that the next file gets.
    pub closed spec fn count(&self) -> u64 {
        self.count
    }

    /// The number that the first file got.
    pub closed spec fn start(&self) -> int {
        self.start@
    }

    /// The number that the next file gets: the starting count plus the number
    /// of files handed so far, up to `u64::MAX`.
    pub fn current(&self) -> (r: u64)
        ensures
            r == self.count(),
            r == if self.start() + self.calls().len() < u64::MAX {
                self.start() + self.calls().len()
            } else {
                u64::MAX as int
            },
    {
        proof {
            use_type_invariant(self);
        }
        self.count
    }
}

/// A counting calculator's `i`-th value is its starting count plus `i`, for
/// as long as that fits in a `u64`.
pub proof fn lemma_counting_values(c: CountingCalculator, i: int)
    requires
        0 <= i < c.produced().len(),
    ensures
        c.produced()[i] == count_value(c.start(), i),
{
}

/// A walk whose one calculator counts, from a state that had produced
/// nothing, numbers the files in the order they are visited: the file entry
/// `k` gets the starting count plus the number of files before it.
pub proof fn lemma_counting_walk(entries: Seq<WalkEntry>, c0: CountingCalculator, c1: CountingCalculator, rs: Seq<Seq<(Seq<char>, Option<serde_json::Value>)>>)
    requires
        c0.produced().len() == 0,
        c1.produced().len() == file_paths(entries).len(),
        rs.len() == entries.len(),
        forall|k: int| 0 <= k < rs.len() && entries[k].kind == EntryKind::File ==> #[trigger] rs[k].len() == 1,
        results_recorded(entries, seq![c0.produced()], seq![c1.produced()], rs),
    ensures
        forall|k: int| 0 <= k < entries.len() && entries[k].kind == EntryKind::File ==>
            #[trigger] rs[k][0].1 == count_value(c1.start(), file_paths(entries.subrange(0, k)).len() as int),
{
    assert forall|k: int| 0 <= k < entries.len() && entries[k].kind == EntryKind::File implies
        #[trigger] rs[k][0].1 == count_value(c1.start(), file_paths(entries.subrange(0, k)).len() as int) by {
        lemma_file_paths_index(entries, k);
        let i = file_paths(entries.subrange(0, k)).len() as int;
        assert(seq![c0.produced()][0].len() == 0);
        assert(rs[k][0].1 == seq![c1.produced()][0][0 + i]);
        lemma_counting_values(c1, i);
    }
}

impl ToxicityIndicatorCalculator for CountingCalculator {
    closed spec fn spec_name(&self) -> Seq<char> {
        self.name@
    }

    closed spec fn calls(&self) -> Seq<Seq<char>> {
        self.seen@
    }

    closed spec fn produced(&self) -> Seq<Option<serde_json::Value>> {
        Seq::new(self.seen@.len(), |i: int| count_value(self.start@, i))
    }

    fn name(&self) -> (r: String) {
        self.name.clone()
    }

    fn description(&self) -> String {
        String::from_str("The order in which files are visited")
    }

    /// Fails, counting nothing, once the count cannot grow.
    fn calculate(&mut self, path: &str) -> (r: Result<serde_json::Value, String>)
        ensures
            old(self).count() < u64::MAX ==> {
                &&& r == Ok::<serde_json::Value, String>(json_number(old(self).count()))
                &&& final(self).count() == old(self).count() + 1
            },
            old(self).count() == u64::MAX ==> r is Err && final(self).count() == old(self).count(),
            final(self).start() == old(self).start(),
    {
        proof {
            use_type_invariant(&*self);
        }
        let ghost before = self.produced();
        if self.count == u64::MAX {
            self.seen = Ghost(self.seen@.push(path@));
            assert(self.produced() =~= before.push(None));
            return Err(String::from_str("count overflow"));
        }
        let r = number_value(self.count);
        *self = CountingCalculator {
            name: self.name.clone(),
            count: self.count + 1,
            start: self.start,
            seen: Ghost(self.seen@.push(path@)),
        };
        assert(self.produced() =~= before.push(Some(r)));
        Ok(r)
    }
}

/// Every value a constant calculator returns is its one value.
pub proof fn lemma_constant_values(c: ConstantCalculator, i: int)
    requires
        0 <= i < c.produced().len(),
    ensures
        c.produced()[i] == Some(c.value()),
{
}

/// Gives every file its own path, as a string.
pub struct FileNameCalculator {
    seen: Ghost<Seq<Seq<char>>>,
}

impl FileNameCalculator {
    pub fn new() -> (r: FileNameCalculator)
        ensures
            r.calls() == Seq::<Seq<char>>::empty(),
            r.produced() == Seq::<Option<serde_json::Value>>::empty(),
    {
        let r = FileNameCalculator { seen: Ghost(Seq::empty()) };
        assert(r.produced() =~= Seq::<Option<serde_json::Value>>::empty());
        r
    }
}

impl ToxicityIndicatorCalculator for FileNameCalculator {
    closed spec fn spec_name(&self) -> Seq<char> {
        "filename"@
    }

    closed spec fn calls(&self) -> Seq<Seq<char>> {
        self.seen@
    }

    closed spec fn produced(&self) -> Seq<Option<serde_json::Value>> {
        self.seen@.map_values(|p: Seq<char>| Some(json_string(p)))
    }

    fn name(&self) -> (r: String) {
        proof {
            reveal_strlit("filename");
        }
        String::from_str("filename")
    }

    fn description(&self) -> String {
        String::from_str("The path of each file")
    }

    fn calculate(&mut self, path: &str) -> (r: Result<serde_json::Value, String>)
        ensures
            r == Ok::<serde_json::Value, String>(json_string(path@)),
    {
        let v = string_value(path);
        let ghost before = self.produced();
        self.seen = Ghost(self.seen@.push(path@));
        assert(self.produced() =~= before.push(Some(v)));
        Ok(v)
    }
}

/// The `i`-th value a file-name calculator returns is the `i`-th path it was
/// handed, as a string.
pub proof fn lemma_file_name_values(c: FileNameCalculator, i: int)
    requires
        0 <= i < c.produced().len(),
    ensures
        c.calls().len() == c.produced().len(),
        c.produced()[i] == Some(json_string(c.calls()[i])),
{
}

/// Fails on every file, so that no file gets a value from it.
pub struct NullCalculator {
    name: String,
    seen: Ghost<Seq<Seq<char>>>,
}

impl NullCalculator {
    pub fn new(name: String) -> (r: NullCalculator)
        ensures
            r.spec_name() == name@,
            r.calls() == Seq::<Seq<char>>::empty(),
            r.produced() == Seq::<Option<serde_json::Value>>::empty(),
    {
        let r = NullCalculator { name, seen: Ghost(Seq::empty()) };
        assert(r.produced() =~= Seq::<Option<serde_json::Value>>::empty());
        r
    }
}

impl ToxicityIndicatorCalculator for NullCalculator {
    closed spec fn spec_name(&self) -> Seq<char> {
        self.name@
    }

    closed spec fn calls(&self) -> Seq<Seq<char>> {
        self.seen@
    }

    closed spec fn produced(&self) -> Seq<Option<serde_json::Value>> {
        Seq::new(self.seen@.len(), |i: int| None)
    }

    fn name(&self) -> (r: String) {
        self.name.clone()
    }

    fn description(&self) -> String {
        String::from_str("No value for any file")
    }

    fn calculate(&mut self, path: &str) -> (r: Result<serde_json::Value, String>)
        ensures
            r is Err,
    {
        let ghost before = self.produced();
        self.seen = Ghost(self.seen@.push(path@));
        assert(self.produced() =~= before.push(None));
        Err(String::from_str("no value"))
    }
}

/// A null calculator never returns a value.
pub proof fn lemma_null_values(c: NullCalculator, i: int)
    requires
        0 <= i < c.produced().len(),
    ensures
        c.produced()[i] is None,
{
}

/// Relies on tokei: `LanguageType::from_path` picks the file's language and
/// `LanguageType::parse` reads and counts it; the number of code lines, or
/// `None` where tokei knows no language for the file or cannot read it. What
/// it returns depends on the file's contents on disk, so nothing is claimed
/// of it.
#[verifier::external_body]
fn code_lines(path: &str) -> (r: Option<u64>) {
    let config = tokei::Config::default();
    let language = tokei::LanguageType::from_path(path, &config)?;
    match language.parse(std::path::PathBuf::from(path), &config) {
        Ok(report) => Some(report.stats.code as u64),
        Err(_) => None,
    }
}

/// Counts the lines of code in each file.
pub struct LocCalculator {
    seen: Ghost<Seq<Seq<char>>>,
    made: Ghost<Seq<Option<serde_json::Value>>>,
}

impl LocCalculator {
    pub fn new() -> (r: LocCalculator)
        ensures
            r.calls() == Seq::<Seq<char>>::empty(),
            r.produced() == Seq::<Option<serde_json::Value>>::empty(),
    {
        LocCalculator { seen: Ghost(Seq::empty()), made: Ghost(Seq::empty()) }
    }
}

impl ToxicityIndicatorCalculator for LocCalculator {
    closed spec fn spec_name(&self) -> Seq<char> {
        "loc"@
    }

    closed spec fn calls(&self) -> Seq<Seq<char>> {
        self.seen@
    }

    closed spec fn produced(&self) -> Seq<Option<serde_json::Value>> {
        self.made@
    }

    fn name(&self) -> (r: String) {
        proof {
            reveal_strlit("loc");
        }
        String::from_str("loc")
    }

    fn description(&self) -> String {
        String::from_str("Lines of code")
    }

    /// The file's number of code lines; fails where it cannot be counted.
    fn calculate(&mut self, path: &str) -> (r: Result<serde_json::Value, String>)
        ensures
            r matches Ok(v) ==> exists|n: u64| v == json_number(n),
    {
        self.seen = Ghost(self.seen@.push(path@));
        match code_lines(path) {
            Some(n) => {
                let v = number_value(n);
                self.made = Ghost(self.made@.push(Some(v)));
                Ok(v)
            },
            None => {
                self.made = Ghost(self.made@.push(None));
                Err(String::from_str("no line count for this file"))
            },
        }
    }
}

/// Any of the calculators above, so that one walk can run several kinds.
pub enum Calculator {
    Constant(ConstantCalculator),
    Counting(CountingCalculator),
    FileName(FileNameCalculator),
    Null(NullCalculator),
    Loc(LocCalculator),
}

impl ToxicityIndicatorCalculator for Calculator {
    open spec fn spec_name(&self) -> Seq<char> {
        match self {
            Calculator::Constant(c) => c.spec_name(),
            Calculator::Counting(c) => c.spec_name(),
            Calculator::FileName(c) => c.spec_name(),
            Calculator::Null(c) => c.spec_name(),
            Calculator::Loc(c) => c.spec_name(),
        }
    }

    open spec fn calls(&self) -> Seq<Seq<char>> {
        match self {
            Calculator::Constant(c) => c.calls(),
            Calculator::Counting(c) => c.calls(),
            Calculator::FileName(c) => c.calls(),
            Calculator::Null(c) => c.calls(),
            Calculator::Loc(c) => c.calls(),
        }
    }

    open spec fn produced(&self) -> Seq<Option<serde_json::Value>> {
        match self {
            Calculator::Constant(c) => c.produced(),
            Calculator::Counting(c) => c.produced(),
            Calculator::FileName(c) => c.produced(),
            Calculator::Null(c) => c.produced(),
            Calculator::Loc(c) => c.produced(),
        }
    }

    fn name(&self) -> (r: String) {
        match self {
            Calculator::Constant(c) => c.name(),
            Calculator::Counting(c) => c.name(),
            Calculator::FileName(c) => c.name(),
            Calculator::Null(c) => c.name(),
            Calculator::Loc(c) => c.name(),
        }
    }

    fn description(&self) -> String {
        match self {
            Calculator::Constant(c) => c.description(),
            Calculator::Counting(c) => c.description(),
            Calculator::FileName(c) => c.description(),
            Calculator::Null(c) => c.description(),
            Calculator::Loc(c) => c.description(),
        }
    }

    fn calculate(&mut self, path: &str) -> (r: Result<serde_json::Value, String>) {
        match self {
            Calculator::Constant(c) => c.calculate(path),
            Calculator::Counting(c) => c.calculate(path),
            Calculator::FileName(c) => c.calculate(path),
            Calculator::Null(c) => c.calculate(path),
            Calculator::Loc(c) => c.calculate(path),
        }
    }
}

/// The calculator that `name` selects: "loc", the line counter, is the only
/// one; `None` for any other name.
pub fn named_toxicity_indicator_calculator(name: &str) -> (r: Option<Calculator>)
    ensures
        r is Some <==> name@ == "loc"@,
        r is Some ==> (r matches Some(Calculator::Loc(c)) && c.calls() == Seq::<Seq<char>>::empty()
            && c.produced() == Seq::<Option<serde_json::Value>>::empty()),
{
    proof {
        reveal_strlit("loc");
    }
    let given = name.to_owned();
    if given == String::from_str("loc") {
        Some(Calculator::Loc(LocCalculator::new()))
    } else {
        None
    }
}

/// The calculators that `names` select, in order; `None` where any name
/// selects none, before any calculator is made for a walk.
pub fn named_toxicity_indicator_calculators(names: &Vec<String>) -> (r: Option<Vec<Calculator>>)
    ensures
        r is Some <==> forall|i: int| 0 <= i < names@.len() ==> #[trigger] names@[i]@ == "loc"@,
        r matches Some(cs) ==> cs@.len() == names@.len()
            && forall|i: int| 0 <= i < cs@.len() ==> (#[trigger] cs@[i]).spec_name() == names@[i]@ && cs@[i].produced().len() == 0,
{
    let mut cs: Vec<Calculator> = Vec::new();
    let mut i: usize = 0;
    while i < names.len()
        invariant
            i <= names@.len(),
            cs@.len() == i,
            forall|k: int| 0 <= k < i ==> #[trigger] names@[k]@ == "loc"@,
            forall|k: int| 0 <= k < i ==> (#[trigger] cs@[k]).spec_name() == names@[k]@ && cs@[k].produced().len() == 0,
        decreases names@.len() - i,
    {
        match named_toxicity_indicator_calculator(names[i].as_str()) {
            Some(c) => {
                proof {
                    reveal_strlit("loc");
                }
                cs.push(c);
            },
            None => {
                return None;
            },
        }
        i = i + 1;
    }
    Some(cs)
}

} // verus!
