//! Statistics tables: each variant of a statistic is run, and the rows of all variants
//! are laid side by side in a '|'-separated table.
use crate::text::{join, join_strings, texts};
use vstd::prelude::*;
use vstd::string::StringExecFns;

verus! {

/// A statistic with several variants, each run giving (name, value) rows.  Running a
/// variant may change the provider, so what a run gives is stated from the provider's
/// state before it.
pub trait StatisticsProvider: Sized {
    /// The names of the variants that the provider gives in this state.  A provider
    /// that does not say gives some names that depend on its state alone.
    closed spec fn variant_names(&self) -> Seq<Seq<char>> {
        vstd::pervasive::arbitrary()
    }

    /// The rows that running `variant` gives in this state.  A provider that does not
    /// say gives some rows that depend on its state and the variant alone.
    closed spec fn rows_of(&self, variant: u8) -> Seq<(Seq<char>, Seq<char>)> {
        vstd::pervasive::arbitrary()
    }

    /// The provider once it has run `variant` from this state.  A provider that does not
    /// say is then in some state that depends on its state and the variant alone.
    closed spec fn after_run(&self, variant: u8) -> Self {
        vstd::pervasive::arbitrary()
    }

    /// The names of the variants.
    fn variants(&self) -> (r: Vec<String>)
        ensures
            texts(r@) == self.variant_names(),
    ;

    /// Runs one variant.
    fn run(&mut self, variant: u8) -> (r: Vec<(String, String)>)
        ensures
            row_texts(r@) == old(self).rows_of(variant),
            *final(self) == old(self).after_run(variant),
    ;
}

/// The provider before its run of variant `k`, when it runs variants 0, 1, ... in turn
/// from `p`.
pub open spec fn provider_before_run<P: StatisticsProvider>(p: P, k: nat) -> P
    decreases k,
{
    if k == 0 {
        p
    } else {
        provider_before_run(p, (k - 1) as nat).after_run((k - 1) as u8)
    }
}

/// The rows of the runs of variants `0..n`, in turn, from `p`.
pub open spec fn provider_runs<P: StatisticsProvider>(p: P, n: nat) -> Seq<
    Seq<(Seq<char>, Seq<char>)>,
> {
    Seq::new(n, |k: int| provider_before_run(p, k as nat).rows_of(k as u8))
}

/// The views of the rows of one run.
pub open spec fn row_texts(rows: Seq<(String, String)>) -> Seq<(Seq<char>, Seq<char>)> {
    rows.map_values(|r: (String, String)| (r.0@, r.1@))
}

/// The views of the rows of all runs.
pub open spec fn run_texts(runs: Seq<Vec<(String, String)>>) -> Seq<Seq<(Seq<char>, Seq<char>)>> {
    runs.map_values(|r: Vec<(String, String)>| row_texts(r@))
}

/// Whether the table can be laid out: no run after the first has more rows than the
/// first.
pub open spec fn table_fits(runs: Seq<Seq<(Seq<char>, Seq<char>)>>) -> bool {
    forall|i: int| 1 <= i < runs.len() ==> #[trigger] runs[i].len() <= runs[0].len()
}

/// Row `k` of the table after the first `m` runs: the first run's name and value, then
/// the value of each later run that has a row `k`.
pub open spec fn table_row(runs: Seq<Seq<(Seq<char>, Seq<char>)>>, k: int, m: int) -> Seq<char>
    decreases m,
{
    if m <= 1 {
        runs[0][k].0 + "|"@ + runs[0][k].1
    } else if k < runs[m - 1].len() {
        table_row(runs, k, m - 1) + "|"@ + runs[m - 1][k].1
    } else {
        table_row(runs, k, m - 1)
    }
}

/// The header line: "v" and the variant names.
pub open spec fn table_header(variants: Seq<Seq<char>>) -> Seq<char> {
    "v|"@ + join(variants, "|"@)
}

/// The separator line: one "-" for the name column and one for each variant.
pub open spec fn table_separator(n: nat) -> Seq<char> {
    join(Seq::new(n + 1, |i: int| "-"@), "|"@)
}

/// The lines of the table.
pub open spec fn table_lines(variants: Seq<Seq<char>>, runs: Seq<Seq<(Seq<char>, Seq<char>)>>) -> Seq<
    Seq<char>,
> {
    seq![table_header(variants), table_separator(variants.len())] + if runs.len() == 0 {
        Seq::empty()
    } else {
        Seq::new(runs[0].len(), |k: int| table_row(runs, k, runs.len() as int))
    }
}

/// The table: its lines joined by newlines.
pub open spec fn table_spec(variants: Seq<Seq<char>>, runs: Seq<Seq<(Seq<char>, Seq<char>)>>) -> Seq<
    char,
> {
    join(table_lines(variants, runs), "\n"@)
}

/// Lays out the rows of the runs of the variants as a table; `None` where a later run has
/// more rows than the first.
pub fn format_table(variants: &Vec<String>, runs: &Vec<Vec<(String, String)>>) -> (r: Option<String>)
    ensures
        r is None <==> !table_fits(run_texts(runs@)),
        r matches Some(s) ==> s@ == table_spec(texts(variants@), run_texts(runs@)),
{
    let ghost rt = run_texts(runs@);
    let mut rows: Vec<String> = Vec::new();
    let mut header = String::new();
    header.append("v|");
    let names = join_strings(variants, "|");
    header.append(names.as_str());
    rows.push(header);
    let mut dashes: Vec<String> = Vec::new();
    dashes.push(String::from_str("-"));
    let mut d: usize = 0;
    while d < variants.len()
        invariant
            d <= variants@.len(),
            dashes@.len() == d + 1,
            forall|j: int| 0 <= j <= d ==> #[trigger] dashes@[j]@ == "-"@,
        decreases variants@.len() - d,
    {
        dashes.push(String::from_str("-"));
        d = d + 1;
    }
    assert(texts(dashes@) =~= Seq::new(variants@.len() + 1, |i: int| "-"@));
    rows.push(join_strings(&dashes, "|"));
    if runs.len() == 0 {
        assert(texts(rows@) =~= table_lines(texts(variants@), rt));
        return Some(join_strings(&rows, "\n"));
    }
    let first = &runs[0];
    let mut k: usize = 0;
    while k < first.len()
        invariant
            runs@.len() > 0,
            rt == run_texts(runs@),
            *first == runs@[0],
            k <= first@.len(),
            rows@.len() == 2 + k,
            rows@[0]@ == table_header(texts(variants@)),
            rows@[1]@ == table_separator(variants@.len()),
            forall|j: int| 0 <= j < k ==> #[trigger] rows@[j + 2]@ == table_row(rt, j, 1),
        decreases first@.len() - k,
    {
        let mut line = first[k].0.clone();
        line.append("|");
        line.append(first[k].1.as_str());
        rows.push(line);
        k = k + 1;
    }
    let mut i: usize = 1;
    while i < runs.len()
        invariant
            runs@.len() > 0,
            rt == run_texts(runs@),
            1 <= i <= runs@.len(),
            rows@.len() == 2 + rt[0].len(),
            rows@[0]@ == table_header(texts(variants@)),
            rows@[1]@ == table_separator(variants@.len()),
            forall|j: int| 1 <= j < i ==> #[trigger] rt[j].len() <= rt[0].len(),
            forall|j: int| 0 <= j < rt[0].len() ==> #[trigger] rows@[j + 2]@ == table_row(rt, j, i as int),
        decreases runs@.len() - i,
    {
        let run = &runs[i];
        assert(rt[i as int].len() == run@.len());
        assert(rt[0].len() == runs@[0]@.len());
        if run.len() > runs[0].len() {
            assert(!table_fits(rt));
            return None;
        }
        let ghost before = rows@;
        let n = rows.len();
        let mut k: usize = 0;
        while k < run.len()
            invariant
                n == rows@.len(),
                runs@.len() > 0,
                rt == run_texts(runs@),
                1 <= i < runs@.len(),
                *run == runs@[i as int],
                run@.len() <= rt[0].len(),
                k <= run@.len(),
                rows@.len() == before.len(),
                before.len() == 2 + rt[0].len(),
                rows@[0] == before[0],
                rows@[1] == before[1],
                forall|j: int| 0 <= j < k ==> #[trigger] rows@[j + 2]@ == before[j + 2]@ + "|"@ + rt[i as int][j].1,
                forall|j: int| k <= j < rt[0].len() ==> #[trigger] rows@[j + 2] == before[j + 2],
            decreases run@.len() - k,
        {
            let mut line = rows[k + 2].clone();
            line.append("|");
            line.append(run[k].1.as_str());
            rows.set(k + 2, line);
            k = k + 1;
        }
        assert forall|j: int| 0 <= j < rt[0].len() implies #[trigger] rows@[j + 2]@ == table_row(
            rt,
            j,
            i + 1,
        ) by {
            if j < run@.len() {
                assert(rt[i as int].len() == run@.len());
            } else {
                assert(rt[i as int].len() == run@.len());
            }
        }
        i = i + 1;
    }
    assert(rt.len() == runs@.len());
    assert forall|j: int| 0 <= j < rows@.len() implies #[trigger] texts(rows@)[j] == table_lines(
        texts(variants@),
        rt,
    )[j] by {
        if j >= 2 {
            assert(rows@[(j - 2) + 2]@ == table_row(rt, j - 2, runs@.len() as int));
        }
    }
    assert(texts(rows@) =~= table_lines(texts(variants@), rt));
    Some(join_strings(&rows, "\n"))
}

/// Runs every variant of a statistic, in order, and lays the rows out as a table: the
/// provider is asked for its variant names once, then runs variants 0, 1, ... in turn,
/// one run each; the table has a header with the variant names, a separator, then for
/// each row of the first run its name and the value of every run.  `None` where a later
/// run gives more rows than the first.  The variants are counted modulo 256 (their
/// number is a `u8`).
pub fn collect_to_table<P: StatisticsProvider>(provider: &mut P) -> (r: Option<String>)
    ensures
        ({
            let v = old(provider).variant_names();
            let n = (v.len() % 256) as nat;
            let runs = provider_runs(*old(provider), n);
            &&& (r is None <==> !table_fits(runs))
            &&& (r matches Some(s) ==> s@ == table_spec(v, runs))
            &&& *final(provider) == provider_before_run(*old(provider), n)
        }),
{
    let ghost p0 = *provider;
    let variants = provider.variants();
    let count: u8 = (variants.len() % 256) as u8;
    let mut runs: Vec<Vec<(String, String)>> = Vec::new();
    let mut i: u8 = 0;
    while i < count
        invariant
            i <= count,
            runs@.len() == i,
            *provider == provider_before_run(p0, i as nat),
            run_texts(runs@) =~= provider_runs(p0, i as nat),
        decreases count - i,
    {
        let ghost before = runs@;
        let rows = provider.run(i);
        runs.push(rows);
        assert(provider_before_run(p0, (i + 1) as nat) == provider_before_run(p0, i as nat).after_run(
            i,
        ));
        assert forall|k: int| 0 <= k < i + 1 implies #[trigger] run_texts(runs@)[k] == provider_runs(
            p0,
            (i + 1) as nat,
        )[k] by {
            if k < i {
                assert(runs@[k] == before[k]);
                assert(run_texts(before)[k] == provider_runs(p0, i as nat)[k]);
            }
        }
        assert(run_texts(runs@) =~= provider_runs(p0, (i + 1) as nat));
        i = i + 1;
    }
    let r = format_table(&variants, &runs);
    assert(run_texts(runs@) == provider_runs(p0, (texts(variants@).len() % 256) as nat));
    r
}

} // verus!
