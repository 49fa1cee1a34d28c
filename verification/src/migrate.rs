//! The schema-migration engine.
//!
//! A migration is a script with a unique, lexically sortable filename.
//! The engine sorts the scripts, skips the ones the ledger already
//! records, and hands the remaining ones out one at a time; the caller
//! executes each script's statements inside a single transaction and
//! reports the outcome back.  Recording a script in the ledger is part
//! of that same transaction, so a failed script leaves no trace: the
//! engine only ever extends the ledger on a reported success, and a
//! reported failure stops the run with the ledger exactly as it was.

use vstd::prelude::*;
use vstd::multiset::Multiset;

use crate::order::{lex_le, str_le, lemma_lex_le_refl, lemma_lex_le_total, lemma_lex_le_trans};

verus! {

/// One row of the migration ledger: a script that has been applied.
#[derive(Debug)]
pub struct MigrationRecord {
    pub filename: String,
    pub executed_at: i64,
}

/// A migration script: its filename and the text of its body.
#[derive(Debug)]
pub struct MigrationScript {
    pub filename: String,
    pub body: String,
}

/// The filenames of a sequence of scripts, as character sequences.
pub open spec fn filenames_of(s: Seq<MigrationScript>) -> Seq<Seq<char>> {
    s.map_values(|x: MigrationScript| x.filename@)
}

/// No two scripts share a filename.
pub open spec fn distinct_filenames(s: Seq<MigrationScript>) -> bool {
    forall|i: int, j: int|
        0 <= i < j < s.len() ==> (#[trigger] s[i].filename@) != (#[trigger] s[j].filename@)
}

/// Scripts stand in lexicographic filename order.
pub open spec fn scripts_sorted(s: Seq<MigrationScript>) -> bool {
    forall|i: int, j: int|
        0 <= i < j < s.len() ==> lex_le(#[trigger] s[i].filename@, #[trigger] s[j].filename@)
}

/// Scripts with pairwise distinct filenames map to a duplicate-free
/// filename sequence, and back.
proof fn lemma_distinct_to_nodup(s: Seq<MigrationScript>)
    requires
        distinct_filenames(s),
    ensures
        filenames_of(s).no_duplicates(),
{
    assert forall|i: int, j: int|
        0 <= i < filenames_of(s).len() && 0 <= j < filenames_of(s).len() && i != j
        implies filenames_of(s)[i] != filenames_of(s)[j] by {
        assert(filenames_of(s)[i] == s[i].filename@);
        assert(filenames_of(s)[j] == s[j].filename@);
        if i < j {
            assert(s[i].filename@ != s[j].filename@);
        } else {
            assert(s[j].filename@ != s[i].filename@);
        }
    }
}

proof fn lemma_nodup_to_distinct(s: Seq<MigrationScript>)
    requires
        filenames_of(s).no_duplicates(),
    ensures
        distinct_filenames(s),
{
    assert forall|i: int, j: int| 0 <= i < j < s.len()
        implies (#[trigger] s[i].filename@) != (#[trigger] s[j].filename@) by {
        assert(filenames_of(s)[i] == s[i].filename@);
        assert(filenames_of(s)[j] == s[j].filename@);
        assert(filenames_of(s)[i] != filenames_of(s)[j]);
    }
}

/// The ledger of applied migrations.  Its invariant: a filename is
/// recorded at most once.
pub struct Ledger {
    pub records: Vec<MigrationRecord>,
}

impl Ledger {
    pub open spec fn wf(&self) -> bool {
        forall|i: int, j: int|
            0 <= i < j < self.records@.len()
                ==> #[trigger] self.records@[i].filename@ != #[trigger] self.records@[j].filename@
    }

    /// Some record carries this filename.
    pub open spec fn spec_has(&self, name: Seq<char>) -> bool {
        exists|i: int| 0 <= i < self.records@.len() && #[trigger] self.records@[i].filename@ == name
    }

    pub fn new() -> (r: Ledger)
        ensures
            r.records@.len() == 0,
            r.wf(),
    {
        Ledger { records: Vec::new() }
    }

    pub fn contains(&self, name: &String) -> (r: bool)
        ensures
            r == self.spec_has(name@),
    {
        let mut i: usize = 0;
        while i < self.records.len()
            invariant
                0 <= i <= self.records@.len(),
                forall|j: int| 0 <= j < i ==> #[trigger] self.records@[j].filename@ != name@,
            decreases self.records@.len() - i,
        {
            if self.records[i].filename == *name {
                return true;
            }
            i += 1;
        }
        false
    }
}

proof fn lemma_filenames_remove(s: Seq<MigrationScript>, i: int)
    requires
        0 <= i < s.len(),
    ensures
        filenames_of(s.remove(i)) =~= filenames_of(s).remove(i),
{
}

/// Sorts scripts by filename.  Keeps the multiset of scripts and the
/// multiset of their filenames, so distinct filenames stay distinct.
fn sort_scripts(input: Vec<MigrationScript>) -> (r: Vec<MigrationScript>)
    ensures
        scripts_sorted(r@),
        r@.to_multiset() == input@.to_multiset(),
        filenames_of(r@).to_multiset() == filenames_of(input@).to_multiset(),
{
    broadcast use vstd::seq_lib::group_to_multiset_ensures;
    broadcast use vstd::multiset::group_multiset_axioms;

    let mut src = input;
    let mut out: Vec<MigrationScript> = Vec::new();
    proof {
        assert(out@.to_multiset().add(src@.to_multiset()) =~= src@.to_multiset());
        assert(filenames_of(out@).to_multiset().add(filenames_of(src@).to_multiset())
            =~= filenames_of(src@).to_multiset());
    }
    let ghost input_seq = src@;
    while src.len() > 0
        invariant
            out@.to_multiset().add(src@.to_multiset()) == input_seq.to_multiset(),
            filenames_of(out@).to_multiset().add(filenames_of(src@).to_multiset())
                == filenames_of(input_seq).to_multiset(),
            scripts_sorted(out@),
            forall|i: int, j: int|
                0 <= i < out@.len() && 0 <= j < src@.len()
                    ==> lex_le(#[trigger] out@[i].filename@, #[trigger] src@[j].filename@),
        decreases src.len(),
    {
        let mut m: usize = 0;
        let mut k: usize = 1;
        proof {
            lemma_lex_le_refl(src@[0].filename@);
        }
        while k < src.len()
            invariant
                src@.len() > 0,
                0 <= m < k <= src@.len(),
                forall|j: int| 0 <= j < k ==> lex_le(src@[m as int].filename@, #[trigger] src@[j].filename@),
            decreases src.len() - k,
        {
            if str_le(src[k].filename.as_str(), src[m].filename.as_str()) {
                proof {
                    assert forall|j: int| 0 <= j < k
                        implies lex_le(src@[k as int].filename@, #[trigger] src@[j].filename@) by {
                        lemma_lex_le_trans(
                            src@[k as int].filename@,
                            src@[m as int].filename@,
                            src@[j].filename@,
                        );
                    }
                    lemma_lex_le_refl(src@[k as int].filename@);
                }
                m = k;
            } else {
                proof {
                    lemma_lex_le_total(src@[k as int].filename@, src@[m as int].filename@);
                }
            }
            k += 1;
        }
        let ghost pre = src@;
        let picked = src.remove(m);
        proof {
            lemma_filenames_remove(pre, m as int);
            assert(filenames_of(pre)[m as int] == picked.filename@);
            assert(pre.contains(picked));
            pre.to_multiset_ensures();
            filenames_of(pre).to_multiset_ensures();
            assert(pre.to_multiset().count(picked) > 0);
            assert(filenames_of(pre).contains(picked.filename@));
            assert(filenames_of(pre).to_multiset().count(picked.filename@) > 0);
            assert(src@ == pre.remove(m as int));
            vstd::seq_lib::to_multiset_remove(pre, m as int);
            assert(pre.remove(m as int).to_multiset() =~= pre.to_multiset().remove(picked));
            assert(filenames_of(src@) == filenames_of(pre).remove(m as int));
            vstd::seq_lib::to_multiset_remove(filenames_of(pre), m as int);
            assert(filenames_of(pre).remove(m as int).to_multiset()
                =~= filenames_of(pre).to_multiset().remove(picked.filename@));
        }
        let ghost out_pre = out@;
        out.push(picked);
        proof {
            assert(out@ =~= out_pre.push(picked));
            assert(filenames_of(out@) =~= filenames_of(out_pre).push(picked.filename@));
            vstd::seq_lib::to_multiset_build(out_pre, picked);
            assert(out@.to_multiset() =~= out_pre.to_multiset().insert(picked));
            vstd::seq_lib::to_multiset_build(filenames_of(out_pre), picked.filename@);
            assert(filenames_of(out@).to_multiset()
                =~= filenames_of(out_pre).to_multiset().insert(picked.filename@));
            assert(out@.to_multiset().add(src@.to_multiset()) =~= input_seq.to_multiset());
            assert(filenames_of(out@).to_multiset().add(filenames_of(src@).to_multiset())
                =~= filenames_of(input_seq).to_multiset());
            assert forall|j: int| 0 <= j < src@.len()
                implies lex_le(picked.filename@, #[trigger] src@[j].filename@) by {
                if j < m as int {
                    assert(src@[j] == pre[j]);
                } else {
                    assert(src@[j] == pre[j + 1]);
                }
            }
        }
    }
    proof {
        assert(src@.to_multiset() =~= Multiset::empty());
        assert(filenames_of(src@) =~= Seq::<Seq<char>>::empty());
        assert(filenames_of(src@).to_multiset() =~= Multiset::empty());
        assert(out@.to_multiset() =~= input_seq.to_multiset());
        assert(filenames_of(out@).to_multiset() =~= filenames_of(input_seq).to_multiset());
    }
    out
}

/// Everything a filtered sequence holds was already there, and satisfies
/// the predicate.
proof fn lemma_filter_elems(s: Seq<MigrationScript>, pred: spec_fn(MigrationScript) -> bool)
    ensures
        forall|x: MigrationScript| s.filter(pred).contains(x) ==> s.contains(x) && pred(x),
    decreases s.len(),
{
    reveal(Seq::filter);
    if s.len() > 0 {
        lemma_filter_elems(s.drop_last(), pred);
        let fp = s.filter(pred);
        let dt = s.drop_last().filter(pred);
        assert forall|x: MigrationScript| fp.contains(x)
            implies s.contains(x) && pred(x) by {
            let i = choose|i: int| 0 <= i < fp.len() && fp[i] == x;
            if pred(s.last()) {
                assert(fp == dt.push(s.last()));
                if i < fp.len() - 1 {
                    assert(dt[i] == x);
                    assert(dt.contains(x));
                    assert(s.drop_last().contains(x));
                    let j = choose|j: int|
                        0 <= j < s.drop_last().len() && s.drop_last()[j] == x;
                    assert(s[j] == x);
                } else {
                    assert(x == s.last());
                    assert(s[s.len() - 1] == x);
                }
            } else {
                assert(fp == dt);
                assert(dt.contains(x));
                assert(s.drop_last().contains(x));
                let j = choose|j: int|
                    0 <= j < s.drop_last().len() && s.drop_last()[j] == x;
                assert(s[j] == x);
            }
        }
    }
}

/// Filtering keeps filenames distinct.
proof fn lemma_filter_distinct_filenames(
    s: Seq<MigrationScript>,
    pred: spec_fn(MigrationScript) -> bool,
)
    requires
        distinct_filenames(s),
    ensures
        distinct_filenames(s.filter(pred)),
    decreases s.len(),
{
    reveal(Seq::filter);
    if s.len() > 0 {
        assert forall|i: int, j: int| 0 <= i < j < s.drop_last().len()
            implies (#[trigger] s.drop_last()[i].filename@)
                != (#[trigger] s.drop_last()[j].filename@) by {
            assert(s[i].filename@ != s[j].filename@);
        }
        lemma_filter_distinct_filenames(s.drop_last(), pred);
        lemma_filter_elems(s.drop_last(), pred);
        let t = s.filter(pred);
        let dt = s.drop_last().filter(pred);
        if pred(s.last()) {
            assert(t == dt.push(s.last()));
            assert forall|p: int, q: int| 0 <= p < q < t.len()
                implies (#[trigger] t[p].filename@) != (#[trigger] t[q].filename@) by {
                if q == t.len() - 1 {
                    assert(t[p] == dt[p]);
                    assert(dt.contains(dt[p]));
                    assert(s.drop_last().contains(dt[p]));
                    let j = choose|j: int|
                        0 <= j < s.drop_last().len() && s.drop_last()[j] == dt[p];
                    assert(s[j].filename@ != s[s.len() - 1].filename@);
                } else {
                    assert(dt[p].filename@ != dt[q].filename@);
                }
            }
        } else {
            assert(t == dt);
        }
    }
}

/// A predicate that holds nowhere filters everything out.
proof fn lemma_filter_none(s: Seq<MigrationScript>, pred: spec_fn(MigrationScript) -> bool)
    requires
        forall|i: int| 0 <= i < s.len() ==> !pred(#[trigger] s[i]),
    ensures
        s.filter(pred) =~= Seq::<MigrationScript>::empty(),
    decreases s.len(),
{
    reveal(Seq::filter);
    if s.len() > 0 {
        lemma_filter_none(s.drop_last(), pred);
    }
}

/// The whitespace the statement splitter strips.
pub open spec fn is_blank(c: char) -> bool {
    c == ' ' || c == '\n' || c == '\t' || c == '\r'
}

/// Leading blanks removed.
pub open spec fn ltrim(s: Seq<char>) -> Seq<char>
    decreases s.len(),
{
    if s.len() > 0 && is_blank(s[0]) {
        ltrim(s.skip(1))
    } else {
        s
    }
}

/// Trailing blanks removed.
pub open spec fn rtrim(s: Seq<char>) -> Seq<char>
    decreases s.len(),
{
    if s.len() > 0 && is_blank(s[s.len() - 1]) {
        rtrim(s.take(s.len() - 1))
    } else {
        s
    }
}

pub open spec fn trimmed(s: Seq<char>) -> Seq<char> {
    rtrim(ltrim(s))
}

/// The position of the first statement delimiter, or the length.
pub open spec fn first_semi(s: Seq<char>) -> nat
    decreases s.len(),
{
    if s.len() == 0 {
        0
    } else if s[0] == ';' {
        0
    } else {
        1 + first_semi(s.skip(1))
    }
}

/// The pieces between delimiters, untrimmed.
pub open spec fn split_semis(s: Seq<char>) -> Seq<Seq<char>>
    decreases s.len(),
{
    let i = first_semi(s);
    if i >= s.len() {
        seq![s]
    } else {
        seq![s.take(i as int)] + split_semis(s.skip(i as int + 1))
    }
}

/// What a script executes: the pieces between `;`, trimmed, with
/// blank pieces dropped, in file order.
pub open spec fn clean_statements(s: Seq<char>) -> Seq<Seq<char>> {
    split_semis(s).map_values(|t: Seq<char>| trimmed(t)).filter(|t: Seq<char>| t.len() > 0)
}

proof fn lemma_first_semi_at(s: Seq<char>, k: int)
    requires
        0 <= k <= s.len(),
        forall|m: int| 0 <= m < k ==> s[m] != ';',
        k == s.len() || s[k] == ';',
    ensures
        first_semi(s) == k,
    decreases k,
{
    if k == 0 {
    } else {
        assert(s[0] != ';');
        lemma_first_semi_at(s.skip(1), k - 1);
    }
}

proof fn lemma_ltrim_skip(s: Seq<char>, a: int)
    requires
        0 <= a <= s.len(),
        forall|m: int| 0 <= m < a ==> is_blank(#[trigger] s[m]),
        a == s.len() || !is_blank(s[a]),
    ensures
        ltrim(s) == s.skip(a),
    decreases a,
{
    if a == 0 {
        assert(s.skip(0) =~= s);
    } else {
        assert(is_blank(s[0]));
        lemma_ltrim_skip(s.skip(1), a - 1);
        assert(s.skip(1).skip(a - 1) =~= s.skip(a));
    }
}

proof fn lemma_rtrim_take(s: Seq<char>, b: int)
    requires
        0 <= b <= s.len(),
        forall|m: int| b <= m < s.len() ==> is_blank(#[trigger] s[m]),
        b == 0 || !is_blank(s[b - 1]),
    ensures
        rtrim(s) == s.take(b),
    decreases s.len(),
{
    if b == s.len() {
        if s.len() > 0 {
            assert(!is_blank(s[s.len() - 1]));
        }
        assert(s.take(b) =~= s);
    } else {
        assert(is_blank(s[s.len() - 1]));
        lemma_rtrim_take(s.take(s.len() - 1), b);
        assert(s.take(s.len() - 1).take(b) =~= s.take(b));
    }
}

fn is_blank_char(c: char) -> (r: bool)
    ensures
        r == is_blank(c),
{
    c == ' ' || c == '\n' || c == '\t' || c == '\r'
}

/// Trims a piece; a piece of nothing but blanks comes back as `None`.
fn trim_str(piece: &str) -> (r: Option<String>)
    ensures
        match r {
            Some(t) => t@ == trimmed(piece@) && t@.len() > 0,
            None => trimmed(piece@).len() == 0,
        },
{
    let n = piece.unicode_len();
    let mut a: usize = 0;
    while a < n && is_blank_char(piece.get_char(a))
        invariant
            0 <= a <= n,
            n == piece@.len(),
            forall|m: int| 0 <= m < a ==> is_blank(#[trigger] piece@[m]),
        decreases n - a,
    {
        a += 1;
    }
    proof {
        lemma_ltrim_skip(piece@, a as int);
    }
    if a == n {
        proof {
            assert(piece@.skip(n as int) =~= Seq::<char>::empty());
            assert(trimmed(piece@).len() == 0);
        }
        return None;
    }
    let mut b: usize = n;
    while b > a + 1 && is_blank_char(piece.get_char(b - 1))
        invariant
            a < b <= n,
            n == piece@.len(),
            forall|m: int| b <= m < n ==> is_blank(#[trigger] piece@[m]),
        decreases b,
    {
        b -= 1;
    }
    // The character at `a` is not blank, so the piece cannot shrink to
    // nothing; `b - 1` is the last kept character.
    let t = piece.substring_char(a, b).to_owned();
    proof {
        let s2 = piece@.skip(a as int);
        let b2 = b as int - a as int;
        assert forall|m: int| b2 <= m < s2.len() implies is_blank(#[trigger] s2[m]) by {
            assert(s2[m] == piece@[a + m]);
            if a + m >= b {
                assert(is_blank(piece@[a + m]));
            } else {
                assert(a + m == b - 1);
                assert(b > a + 1);
            }
        }
        assert(b2 == 0 || !is_blank(s2[b2 - 1])) by {
            if b2 > 0 {
                if b == a + 1 {
                    assert(s2[b2 - 1] == piece@[a as int]);
                } else {
                    assert(s2[b2 - 1] == piece@[b - 1]);
                }
            }
        }
        lemma_rtrim_take(s2, b2);
        assert(s2.take(b2) =~= piece@.subrange(a as int, b as int));
        assert(t@ == trimmed(piece@));
        assert(t@.len() > 0) by {
            assert(t@[0] == piece@[a as int]);
        }
    }
    Some(t)
}

/// Splits a script into its statements: the pieces between `;`,
/// trimmed, blank pieces dropped, in file order.
pub fn split_statements(body: &str) -> (r: Vec<String>)
    requires
        body@.len() < usize::MAX,
    ensures
        r.deep_view() == clean_statements(body@),
{
    broadcast use vstd::seq_lib::group_seq_lib_default;

    let n = body.unicode_len();
    let mut r: Vec<String> = Vec::new();
    let mut start: usize = 0;
    proof {
        assert(r.deep_view() =~= Seq::<Seq<char>>::empty());
        assert(body@.skip(0) =~= body@);
        assert(clean_statements(body@) =~= r.deep_view() + clean_statements(body@));
    }
    while start <= n
        invariant
            0 <= start <= n + 1,
            n == body@.len(),
            n < usize::MAX,
            start <= n ==> clean_statements(body@)
                == r.deep_view() + clean_statements(body@.skip(start as int)),
            start == n + 1 ==> clean_statements(body@) == r.deep_view(),
        decreases n + 1 - start,
    {
        // Find the next delimiter.
        let mut j: usize = start;
        while j < n && body.get_char(j) != ';'
            invariant
                start <= j <= n,
                n == body@.len(),
                forall|m: int| start <= m < j ==> (#[trigger] body@[m]) != ';',
            decreases n - j,
        {
            j += 1;
        }
        let ghost suffix = body@.skip(start as int);
        proof {
            assert forall|m: int| 0 <= m < j - start implies (#[trigger] suffix[m]) != ';' by {
                assert(suffix[m] == body@[start + m]);
            }
            if j < n {
                assert(suffix[j - start] == body@[j as int]);
            }
            lemma_first_semi_at(suffix, j as int - start as int);
        }
        let piece = body.substring_char(start, j);
        let ghost piece_seq = suffix.take(j as int - start as int);
        proof {
            assert(piece@ =~= piece_seq);
        }
        let ghost r_pre = r.deep_view();
        match trim_str(piece) {
            Some(t) => {
                r.push(t);
                proof {
                    assert(r.deep_view() =~= r_pre.push(trimmed(piece_seq)));
                }
            },
            None => {},
        }
        proof {
            reveal_with_fuel(Seq::filter, 3);
            let rest = suffix.skip(j as int - start as int + 1);
            if j < n {
                assert(split_semis(suffix) == seq![piece_seq] + split_semis(rest));
                assert(rest =~= body@.skip(j as int + 1));
                let mapped_one = seq![piece_seq].map_values(|t: Seq<char>| trimmed(t));
                let mapped_rest = split_semis(rest).map_values(|t: Seq<char>| trimmed(t));
                assert(split_semis(suffix).map_values(|t: Seq<char>| trimmed(t))
                    =~= mapped_one + mapped_rest);
                assert(mapped_one =~= seq![trimmed(piece_seq)]);
                assert(seq![trimmed(piece_seq)].drop_last() =~= Seq::<Seq<char>>::empty());
                assert(seq![trimmed(piece_seq)].filter(|t: Seq<char>| t.len() > 0) == (
                    if trimmed(piece_seq).len() > 0 {
                        seq![trimmed(piece_seq)]
                    } else {
                        Seq::<Seq<char>>::empty()
                    }
                ));
                assert(clean_statements(suffix)
                    =~= seq![trimmed(piece_seq)].filter(|t: Seq<char>| t.len() > 0)
                        + clean_statements(body@.skip(j as int + 1)));
                assert(clean_statements(body@)
                    =~= r.deep_view() + clean_statements(body@.skip(j as int + 1)));
            } else {
                // Last piece: the suffix is one undelimited piece.
                assert(first_semi(suffix) == suffix.len());
                assert(split_semis(suffix) == seq![suffix]);
                assert(piece_seq =~= suffix);
                let mapped = split_semis(suffix).map_values(|t: Seq<char>| trimmed(t));
                assert(mapped =~= seq![trimmed(suffix)]);
                assert(seq![trimmed(suffix)].drop_last() =~= Seq::<Seq<char>>::empty());
                assert(seq![trimmed(suffix)].filter(|t: Seq<char>| t.len() > 0) == (
                    if trimmed(suffix).len() > 0 {
                        seq![trimmed(suffix)]
                    } else {
                        Seq::<Seq<char>>::empty()
                    }
                ));
                assert(clean_statements(body@) =~= r.deep_view());
            }
        }
        start = j + 1;
    }
    r
}

/// The state of one migration run.
///
/// `queue` is the plan: the scripts that were not yet recorded, in
/// lexicographic filename order.  `next` points at the first script not
/// yet applied in this run; everything before it has been applied and
/// recorded.  A reported failure freezes the run.  The ghost `sources`
/// field remembers the filenames of every script the run was started
/// with, applied or not, so that idempotence can be stated.
pub struct MigrationRun {
    pub queue: Vec<MigrationScript>,
    pub next: usize,
    pub failed: Option<String>,
    pub sources: Ghost<Seq<Seq<char>>>,
}

impl MigrationRun {
    pub open spec fn wf(&self, ledger: &Ledger) -> bool {
        &&& ledger.wf()
        &&& self.next <= self.queue@.len()
        &&& scripts_sorted(self.queue@)
        &&& distinct_filenames(self.queue@)
        &&& forall|i: int|
            0 <= i < self.next ==> ledger.spec_has(#[trigger] self.queue@[i].filename@)
        &&& forall|i: int|
            self.next <= i < self.queue@.len()
                ==> !ledger.spec_has(#[trigger] self.queue@[i].filename@)
        &&& forall|n: Seq<char>|
            self.sources@.contains(n)
                ==> ledger.spec_has(n)
                    || exists|i: int|
                        self.next <= i < self.queue@.len()
                            && #[trigger] self.queue@[i].filename@ == n
    }

    /// The run got through its whole plan without a failure.
    pub open spec fn complete(&self) -> bool {
        self.next == self.queue@.len() && self.failed.is_none()
    }

    /// How many scripts this run has applied so far.
    pub fn applied_count(&self) -> (r: usize)
        ensures
            r == self.next,
    {
        self.next
    }

    /// The script to execute next, if the run is still going and
    /// anything is left.
    pub fn current_script(&self) -> (r: Option<&MigrationScript>)
        ensures
            r.is_some() == (self.failed.is_none() && self.next < self.queue@.len()),
            r matches Some(s) ==> *s == self.queue@[self.next as int],
    {
        if self.failed.is_none() && self.next < self.queue.len() {
            Some(&self.queue[self.next])
        } else {
            None
        }
    }
}

/// Plans a migration run: sorts the scripts by filename and keeps
/// exactly the ones the ledger does not record yet.
pub fn start_migration_run(scripts: Vec<MigrationScript>, ledger: &Ledger) -> (r: MigrationRun)
    requires
        ledger.wf(),
        distinct_filenames(scripts@),
    ensures
        r.wf(ledger),
        r.next == 0,
        r.failed.is_none(),
        r.sources@ == filenames_of(scripts@),
        scripts_sorted(r.queue@),
        r.queue@.to_multiset() == scripts@.filter(
            |s: MigrationScript| !ledger.spec_has(s.filename@),
        ).to_multiset(),
        forall|s: MigrationScript|
            #[trigger] r.queue@.contains(s)
                <==> scripts@.contains(s) && !ledger.spec_has(s.filename@),
{
    let ghost input_seq = scripts@;
    let ghost pred = |s: MigrationScript| !ledger.spec_has(s.filename@);
    let mut rest = scripts;
    let mut pending: Vec<MigrationScript> = Vec::new();
    proof {
        assert(input_seq.take(0).filter(pred) =~= Seq::<MigrationScript>::empty());
    }
    while rest.len() > 0
        invariant
            rest@ == input_seq.skip(input_seq.len() - rest@.len()),
            rest@.len() <= input_seq.len(),
            pending@ == input_seq.take(input_seq.len() - rest@.len()).filter(pred),
            pred == (|s: MigrationScript| !ledger.spec_has(s.filename@)),
        decreases rest.len(),
    {
        let ghost k = input_seq.len() - rest@.len();
        let s = rest.remove(0);
        proof {
            assert(s == input_seq[k]);
            assert(rest@ =~= input_seq.skip(k + 1));
        }
        let applied = ledger.contains(&s.filename);
        if !applied {
            pending.push(s);
        }
        proof {
            reveal(Seq::filter);
            assert(input_seq.take(k + 1).drop_last() =~= input_seq.take(k));
            assert(input_seq.take(k + 1).last() == input_seq[k]);
            assert(pending@ == input_seq.take(k + 1).filter(pred));
        }
    }
    proof {
        assert(input_seq.take(input_seq.len() as int) =~= input_seq);
        assert(pending@ == input_seq.filter(pred));
        lemma_filter_distinct_filenames(input_seq, pred);
    }
    let queue = sort_scripts(pending);
    proof {
        lemma_distinct_to_nodup(input_seq.filter(pred));
        filenames_of(input_seq.filter(pred)).lemma_multiset_has_no_duplicates();
        filenames_of(queue@).lemma_multiset_has_no_duplicates_conv();
        lemma_nodup_to_distinct(queue@);
        lemma_filter_elems(input_seq, pred);
        queue@.to_multiset_ensures();
        input_seq.filter(pred).to_multiset_ensures();
        assert forall|s: MigrationScript| #[trigger] queue@.contains(s)
            implies input_seq.contains(s) && !ledger.spec_has(s.filename@) by {
            assert(queue@.to_multiset().count(s) > 0);
            assert(input_seq.filter(pred).to_multiset().count(s) > 0);
            assert(input_seq.filter(pred).contains(s));
        }
        assert forall|s: MigrationScript|
            input_seq.contains(s) && !ledger.spec_has(s.filename@)
            implies queue@.contains(s) by {
            let i = choose|i: int| 0 <= i < input_seq.len() && input_seq[i] == s;
            input_seq.lemma_filter_contains(pred, i);
            assert(input_seq.filter(pred).contains(s));
            assert(input_seq.filter(pred).to_multiset().count(s) > 0);
            assert(queue@.to_multiset().count(s) > 0);
        }
    }
    let run = MigrationRun {
        queue,
        next: 0,
        failed: None,
        sources: Ghost(filenames_of(input_seq)),
    };
    proof {
        assert forall|i: int| 0 <= i < run.queue@.len()
            implies !ledger.spec_has(#[trigger] run.queue@[i].filename@) by {
            assert(run.queue@.contains(run.queue@[i]));
        }
        assert forall|n: Seq<char>| run.sources@.contains(n)
            implies ledger.spec_has(n)
                || exists|i: int|
                    0 <= i < run.queue@.len() && #[trigger] run.queue@[i].filename@ == n by {
            let j = choose|j: int|
                0 <= j < input_seq.len() && filenames_of(input_seq)[j] == n;
            if !ledger.spec_has(n) {
                assert(input_seq[j].filename@ == n);
                assert(input_seq.contains(input_seq[j]));
                assert(run.queue@.contains(input_seq[j]));
                let i = choose|i: int|
                    0 <= i < run.queue@.len() && run.queue@[i] == input_seq[j];
                assert(run.queue@[i].filename@ == n);
            }
        }
    }
    run
}

/// Records the outcome of executing the current script.
///
/// On success the script is recorded in the ledger, stamped `now`; on
/// failure the run freezes with the failing script's name and the
/// ledger is left exactly as it was — the engine never records a script
/// that did not run to completion, and the caller executes the script
/// body and the ledger insert inside one transaction, so a failed
/// script leaves no partial effect anywhere.
pub fn apply_step(run: &mut MigrationRun, ledger: &mut Ledger, success: bool, now: i64)
    requires
        old(run).wf(old(ledger)),
        old(run).failed.is_none(),
        old(run).next < old(run).queue@.len(),
    ensures
        final(run).wf(final(ledger)),
        final(run).queue == old(run).queue,
        final(run).sources == old(run).sources,
        success ==> {
            &&& final(run).next == old(run).next + 1
            &&& final(run).failed.is_none()
            &&& final(ledger).records@.len() == old(ledger).records@.len() + 1
            &&& final(ledger).records@.take(old(ledger).records@.len() as int)
                == old(ledger).records@
            &&& final(ledger).records@.last().filename@
                == old(run).queue@[old(run).next as int].filename@
            &&& final(ledger).records@.last().executed_at == now
        },
        !success ==> {
            &&& *final(ledger) == *old(ledger)
            &&& final(run).next == old(run).next
            &&& final(run).failed matches Some(f)
                && f@ == old(run).queue@[old(run).next as int].filename@
        },
{
    if success {
        let ghost old_records = ledger.records@;
        let ghost f = run.queue@[run.next as int].filename@;
        let record = MigrationRecord {
            filename: run.queue[run.next].filename.clone(),
            executed_at: now,
        };
        ledger.records.push(record);
        let idx = run.next;
        assert(idx < run.queue.len());
        run.next = idx + 1;
        proof {
            assert(ledger.records@.take(old_records.len() as int) =~= old_records);
            assert(forall|i: int|
                0 <= i < old_records.len() ==> ledger.records@[i] == old_records[i]);
            assert(ledger.records@.last().filename@ == f);
            // The new ledger knows exactly the old names plus `f`.
            assert forall|n: Seq<char>| #[trigger] ledger.spec_has(n)
                implies old(ledger).spec_has(n) || n == f by {
                let i = choose|i: int|
                    0 <= i < ledger.records@.len() && ledger.records@[i].filename@ == n;
                if i < old_records.len() {
                    assert(old(ledger).records@[i].filename@ == n);
                }
            }
            assert forall|n: Seq<char>| old(ledger).spec_has(n) || n == f
                implies #[trigger] ledger.spec_has(n) by {
                if old(ledger).spec_has(n) {
                    let i = choose|i: int|
                        0 <= i < old_records.len() && old(ledger).records@[i].filename@ == n;
                    assert(ledger.records@[i].filename@ == n);
                } else {
                    assert(ledger.records@.last().filename@ == n);
                }
            }
            // `f` was pending, so it was not recorded before; the new
            // ledger still has each filename at most once.
            assert(!old(ledger).spec_has(f));
            assert forall|i: int, j: int| 0 <= i < j < ledger.records@.len()
                implies ledger.records@[i].filename@ != ledger.records@[j].filename@ by {
                if j == ledger.records@.len() - 1 {
                    assert(ledger.records@[i] == old(ledger).records@[i]);
                    if ledger.records@[i].filename@ == f {
                        assert(old(ledger).records@[i].filename@ == f);
                        assert(old(ledger).spec_has(f));
                    }
                } else {
                    assert(ledger.records@[i] == old(ledger).records@[i]);
                    assert(ledger.records@[j] == old(ledger).records@[j]);
                    assert(old(ledger).records@[i].filename@
                        != old(ledger).records@[j].filename@);
                }
            }
            // Every queued script after the new cursor is still pending.
            assert forall|i: int| run.next <= i < run.queue@.len()
                implies !ledger.spec_has(#[trigger] run.queue@[i].filename@) by {
                assert(filenames_of(run.queue@)[i] != filenames_of(run.queue@)[idx as int]);
                assert(!old(ledger).spec_has(run.queue@[i].filename@));
            }
            // Every source is recorded or still queued.
            assert forall|n: Seq<char>| run.sources@.contains(n)
                implies ledger.spec_has(n)
                    || exists|i: int|
                        run.next <= i < run.queue@.len()
                            && #[trigger] run.queue@[i].filename@ == n by {
                if !old(ledger).spec_has(n) {
                    let i = choose|i: int|
                        old(run).next <= i < run.queue@.len()
                            && #[trigger] run.queue@[i].filename@ == n;
                    if i == idx as int {
                        assert(ledger.spec_has(n));
                    }
                }
            }
        }
    } else {
        run.failed = Some(run.queue[run.next].filename.clone());
    }
}

/// Law: migration is idempotent.  After a run over a script set has
/// completed, every one of its filenames stands in the ledger, so
/// planning the same script set again selects nothing — zero scripts
/// would be applied and the ledger would not change.
pub proof fn lemma_migration_idempotent(
    run: MigrationRun,
    ledger: Ledger,
    scripts: Seq<MigrationScript>,
)
    requires
        run.wf(&ledger),
        run.complete(),
        run.sources@ == filenames_of(scripts),
    ensures
        forall|i: int| 0 <= i < scripts.len() ==> ledger.spec_has(#[trigger] scripts[i].filename@),
        scripts.filter(|s: MigrationScript| !ledger.spec_has(s.filename@))
            =~= Seq::<MigrationScript>::empty(),
{
    assert forall|i: int| 0 <= i < scripts.len()
        implies ledger.spec_has(#[trigger] scripts[i].filename@) by {
        assert(filenames_of(scripts)[i] == scripts[i].filename@);
        assert(run.sources@.contains(scripts[i].filename@));
    }
    lemma_filter_none(scripts, |s: MigrationScript| !ledger.spec_has(s.filename@));
}

} // verus!
