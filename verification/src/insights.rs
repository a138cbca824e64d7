//! Anomaly cards: their severities, the card that ties together symptoms
//! blamed on one process, the zombie-process check, and the final
//! ordering and cap of what the dashboard shows.

use vstd::prelude::*;
use crate::app::TabId;
use crate::sort::{insertion_sort, lemma_sort_by_map, lemma_sort_by_len, sort_by};
use crate::text::{
    chars_of, decimal, eq_chars, join, lex_le, lex_le_chars, push_decimal, push_str, string_of,
};

verus! {

/// How urgent a card is; later variants are more severe.
#[derive(Debug, Clone, Copy, PartialEq, Eq, PartialOrd, Ord, Structural)]
pub enum Severity {
    Info,
    Warn,
    Crit,
}

/// A severity's place in the order Info < Warn < Crit.
pub open spec fn severity_rank(s: Severity) -> nat {
    match s {
        Severity::Info => 0,
        Severity::Warn => 1,
        Severity::Crit => 2,
    }
}

/// The badge text of a severity.
pub open spec fn severity_label(s: Severity) -> Seq<char> {
    match s {
        Severity::Info => "INFO"@,
        Severity::Warn => "WARN"@,
        Severity::Crit => "CRIT"@,
    }
}

impl Severity {
    /// The badge text.
    pub fn label(self) -> (r: &'static str)
        ensures
            r@ == severity_label(self),
    {
        match self {
            Severity::Info => "INFO",
            Severity::Warn => "WARN",
            Severity::Crit => "CRIT",
        }
    }
}

/// One anomaly card.
#[derive(Debug)]
pub struct Insight {
    pub severity: Severity,
    pub title: String,
    pub body: Vec<String>,
    pub suggested_tab: TabId,
    /// The process most responsible for the card, when one stands out.
    pub culprit: Option<String>,
}

/// `Insight` with its text as character sequences.
pub struct InsightView {
    pub severity: Severity,
    pub title: Seq<char>,
    pub body: Seq<Seq<char>>,
    pub suggested_tab: TabId,
    pub culprit: Option<Seq<char>>,
}

pub open spec fn lines_view(v: Seq<String>) -> Seq<Seq<char>> {
    v.map_values(|s: String| s@)
}

impl View for Insight {
    type V = InsightView;

    open spec fn view(&self) -> InsightView {
        InsightView {
            severity: self.severity,
            title: self.title@,
            body: lines_view(self.body@),
            suggested_tab: self.suggested_tab,
            culprit: match self.culprit {
                Some(c) => Some(c@),
                None => None,
            },
        }
    }
}

pub open spec fn insights_view(v: Seq<Insight>) -> Seq<InsightView> {
    v.map_values(|i: Insight| i@)
}

fn clone_lines(v: &Vec<String>) -> (r: Vec<String>)
    ensures
        lines_view(r@) == lines_view(v@),
{
    let mut r: Vec<String> = Vec::with_capacity(v.len());
    let mut i: usize = 0;
    while i < v.len()
        invariant
            i <= v@.len(),
            lines_view(r@) == lines_view(v@.take(i as int)),
        decreases v@.len() - i,
    {
        let ghost old_r = r@;
        r.push(v[i].clone());
        assert(lines_view(r@) =~= lines_view(old_r).push(v@[i as int]@));
        assert(v@.take(i + 1) =~= v@.take(i as int).push(v@[i as int]));
        assert(lines_view(v@.take(i + 1)) =~= lines_view(v@.take(i as int)).push(v@[i as int]@));
        i += 1;
    }
    assert(v@.take(v@.len() as int) =~= v@);
    r
}

impl Insight {
    /// A copy of the card.
    pub fn duplicate(&self) -> (r: Insight)
        ensures
            r@ == self@,
    {
        Insight {
            severity: self.severity,
            title: self.title.clone(),
            body: clone_lines(&self.body),
            suggested_tab: self.suggested_tab,
            culprit: match &self.culprit {
                Some(c) => Some(c.clone()),
                None => None,
            },
        }
    }
}

/// The distinct culprit names of `cs`, in order of first appearance.
pub open spec fn culprit_names(cs: Seq<InsightView>) -> Seq<Seq<char>>
    decreases cs.len(),
{
    if cs.len() == 0 {
        Seq::empty()
    } else {
        let p = culprit_names(cs.drop_last());
        match cs.last().culprit {
            Some(n) => if p.contains(n) {
                p
            } else {
                p.push(n)
            },
            None => p,
        }
    }
}

/// The cards of `cs` that name `name` as culprit, in order.
pub open spec fn blamed_on(cs: Seq<InsightView>, name: Seq<char>) -> Seq<InsightView>
    decreases cs.len(),
{
    if cs.len() == 0 {
        Seq::empty()
    } else {
        let p = blamed_on(cs.drop_last(), name);
        if cs.last().culprit == Some(name) {
            p.push(cs.last())
        } else {
            p
        }
    }
}

/// The title of the card tying `n` symptoms to `name`.
pub open spec fn common_thread_title(name: Seq<char>, n: nat) -> Seq<char> {
    name + " looks like the common thread behind "@ + decimal(n) + " of the cards above"@
}

/// The card tying the cards of `cs` blamed on `name` together: critical,
/// listing their titles, pointing where the first of them points.
pub open spec fn common_thread_card(cs: Seq<InsightView>, name: Seq<char>) -> InsightView {
    let g = blamed_on(cs, name);
    InsightView {
        severity: Severity::Crit,
        title: common_thread_title(name, g.len()),
        body: g.map_values(|c: InsightView| c.title),
        suggested_tab: g[0].suggested_tab,
        culprit: Some(name),
    }
}

/// One card per name of `names` blamed by two or more cards of `cs`.
pub open spec fn common_thread_cards(cs: Seq<InsightView>, names: Seq<Seq<char>>) -> Seq<
    InsightView,
>
    decreases names.len(),
{
    if names.len() == 0 {
        Seq::empty()
    } else {
        let p = common_thread_cards(cs, names.drop_last());
        if blamed_on(cs, names.last()).len() >= 2 {
            p.push(common_thread_card(cs, names.last()))
        } else {
            p
        }
    }
}

/// What `correlate_shared_culprits` gives: for each process named as
/// culprit by two or more cards, in name order, the card tying them.
pub open spec fn correlations(cs: Seq<InsightView>) -> Seq<InsightView> {
    common_thread_cards(cs, sort_by(|a: Seq<char>, b: Seq<char>| lex_le(a, b), culprit_names(cs)))
}

fn contains_name(names: &Vec<Vec<char>>, n: &Vec<char>) -> (r: bool)
    ensures
        r == names@.map_values(|v: Vec<char>| v@).contains(n@),
{
    let ghost nv = names@.map_values(|v: Vec<char>| v@);
    let mut i: usize = 0;
    while i < names.len()
        invariant
            i <= names@.len(),
            nv == names@.map_values(|v: Vec<char>| v@),
            forall|k: int| 0 <= k < i ==> nv[k] != n@,
        decreases names@.len() - i,
    {
        if eq_chars(&names[i], n) {
            assert(nv[i as int] == n@);
            return true;
        }
        i += 1;
    }
    false
}

fn name_le(a: &Vec<char>, b: &Vec<char>) -> (r: bool)
    ensures
        r == lex_le(a@, b@),
{
    lex_le_chars(a, b)
}

fn same_name(c: &Option<String>, name: &Vec<char>) -> (r: bool)
    ensures
        r == (match c {
            Some(s) => Some(s@),
            None => None::<Seq<char>>,
        } == Some(name@)),
{
    match c {
        Some(s) => eq_chars(&chars_of(s.as_str()), name),
        None => false,
    }
}

/// The card for `name` if two or more cards of `cards` blame it.
fn common_thread(cards: &Vec<Insight>, name: &Vec<char>) -> (r: Option<Insight>)
    ensures
        match r {
            Some(c) => blamed_on(insights_view(cards@), name@).len() >= 2 && c@ == common_thread_card(
                insights_view(cards@),
                name@,
            ),
            None => blamed_on(insights_view(cards@), name@).len() < 2,
        },
{
    let ghost cv = insights_view(cards@);
    let mut titles: Vec<String> = Vec::new();
    let mut tab: Option<TabId> = None;
    let mut i: usize = 0;
    while i < cards.len()
        invariant
            i <= cards@.len(),
            cv == insights_view(cards@),
            lines_view(titles@) == blamed_on(cv.take(i as int), name@).map_values(
                |c: InsightView| c.title,
            ),
            match tab {
                Some(t) => blamed_on(cv.take(i as int), name@).len() > 0 && t == blamed_on(
                    cv.take(i as int),
                    name@,
                )[0].suggested_tab,
                None => blamed_on(cv.take(i as int), name@).len() == 0,
            },
        decreases cards@.len() - i,
    {
        let ghost g = blamed_on(cv.take(i as int), name@);
        assert(cv.take(i + 1).drop_last() =~= cv.take(i as int));
        assert(cv.take(i + 1).last() == cards@[i as int]@);
        if same_name(&cards[i].culprit, name) {
            let ghost old_titles = titles@;
            titles.push(cards[i].title.clone());
            assert(lines_view(titles@) =~= lines_view(old_titles).push(cards@[i as int]@.title));
            assert(g.push(cards@[i as int]@).map_values(|c: InsightView| c.title) =~= g.map_values(
                |c: InsightView| c.title,
            ).push(cards@[i as int]@.title));
            if tab.is_none() {
                tab = Some(cards[i].suggested_tab);
            } else {
                assert(g.push(cards@[i as int]@)[0] == g[0]);
            }
        }
        i += 1;
    }
    assert(cv.take(cards@.len() as int) =~= cv);
    if titles.len() < 2 {
        return None;
    }
    let n = titles.len();
    let mut title: Vec<char> = name.clone();
    assert(title@ == name@);
    push_str(&mut title, " looks like the common thread behind ");
    push_decimal(&mut title, n as u64);
    push_str(&mut title, " of the cards above");
    let card = Insight {
        severity: Severity::Crit,
        title: string_of(&title),
        body: titles,
        suggested_tab: tab.unwrap(),
        culprit: Some(string_of(name)),
    };
    assert(card@.title =~= common_thread_title(name@, blamed_on(cv, name@).len()));
    Some(card)
}

/// For each process named as culprit by two or more cards, in name order,
/// a critical card saying it is the common thread behind them, listing
/// their titles.
pub fn correlate_shared_culprits(cards: &Vec<Insight>) -> (r: Vec<Insight>)
    ensures
        insights_view(r@) == correlations(insights_view(cards@)),
{
    let ghost cv = insights_view(cards@);
    let mut names: Vec<Vec<char>> = Vec::new();
    let mut i: usize = 0;
    while i < cards.len()
        invariant
            i <= cards@.len(),
            cv == insights_view(cards@),
            names@.map_values(|v: Vec<char>| v@) == culprit_names(cv.take(i as int)),
        decreases cards@.len() - i,
    {
        assert(cv.take(i + 1).drop_last() =~= cv.take(i as int));
        assert(cv.take(i + 1).last() == cards@[i as int]@);
        match &cards[i].culprit {
            Some(s) => {
                let n = chars_of(s.as_str());
                if !contains_name(&names, &n) {
                    let ghost old_names = names@;
                    names.push(n);
                    assert(names@.map_values(|v: Vec<char>| v@) =~= old_names.map_values(
                        |v: Vec<char>| v@,
                    ).push(n@));
                }
            },
            None => {},
        }
        i += 1;
    }
    assert(cv.take(cards@.len() as int) =~= cv);
    let ghost unsorted = names@;
    let sorted = insertion_sort(names, name_le, Ghost(|a: Vec<char>, b: Vec<char>| lex_le(a@, b@)));
    proof {
        lemma_sort_by_map(
            |a: Vec<char>, b: Vec<char>| lex_le(a@, b@),
            |a: Seq<char>, b: Seq<char>| lex_le(a, b),
            |v: Vec<char>| v@,
            unsorted,
        );
    }
    let ghost sv = sorted@.map_values(|v: Vec<char>| v@);
    assert(sv == sort_by(|a: Seq<char>, b: Seq<char>| lex_le(a, b), culprit_names(cv)));
    let mut out: Vec<Insight> = Vec::new();
    let mut k: usize = 0;
    while k < sorted.len()
        invariant
            k <= sorted@.len(),
            cv == insights_view(cards@),
            sv == sorted@.map_values(|v: Vec<char>| v@),
            insights_view(out@) == common_thread_cards(cv, sv.take(k as int)),
        decreases sorted@.len() - k,
    {
        assert(sv.take(k + 1).drop_last() =~= sv.take(k as int));
        assert(sv.take(k + 1).last() == sorted@[k as int]@);
        match common_thread(cards, &sorted[k]) {
            Some(c) => {
                let ghost old_out = out@;
                out.push(c);
                assert(insights_view(out@) =~= insights_view(old_out).push(c@));
            },
            None => {},
        }
        k += 1;
    }
    assert(sv.take(sorted@.len() as int) =~= sv);
    out
}


/// More severe first.
pub open spec fn more_severe(a: InsightView, b: InsightView) -> bool {
    severity_rank(a.severity) >= severity_rank(b.severity)
}

/// The most cards the dashboard shows at once.
pub const MAX_CARDS: usize = 6;

/// What the dashboard shows of the cards `cs`: with their correlation
/// cards added, most severe first (ties keep their order), at most
/// `MAX_CARDS`.
pub open spec fn shown_cards(cs: Seq<InsightView>) -> Seq<InsightView> {
    let all = sort_by(|a: InsightView, b: InsightView| more_severe(a, b), cs + correlations(cs));
    if all.len() > MAX_CARDS {
        all.take(MAX_CARDS as int)
    } else {
        all
    }
}

fn more_severe_exec(a: &Insight, b: &Insight) -> (r: bool)
    ensures
        r == more_severe(a@, b@),
{
    let x: u8 = match a.severity {
        Severity::Info => 0,
        Severity::Warn => 1,
        Severity::Crit => 2,
    };
    let y: u8 = match b.severity {
        Severity::Info => 0,
        Severity::Warn => 1,
        Severity::Crit => 2,
    };
    x >= y
}

/// Adds the correlation cards to `cards`, orders everything most severe
/// first (keeping the order of equally severe cards) and keeps at most
/// `MAX_CARDS`.
pub fn order_cards(cards: Vec<Insight>) -> (r: Vec<Insight>)
    ensures
        insights_view(r@) == shown_cards(insights_view(cards@)),
{
    let ghost cv = insights_view(cards@);
    let mut correlated = correlate_shared_culprits(&cards);
    let mut all = cards;
    let ghost a0 = all@;
    let ghost c0 = correlated@;
    all.append(&mut correlated);
    assert(all@ =~= a0 + c0);
    assert(insights_view(all@) =~= cv + correlations(cv));
    let ghost unsorted = all@;
    let mut sorted = insertion_sort(
        all,
        more_severe_exec,
        Ghost(|a: Insight, b: Insight| more_severe(a@, b@)),
    );
    proof {
        lemma_sort_by_map(
            |a: Insight, b: Insight| more_severe(a@, b@),
            |a: InsightView, b: InsightView| more_severe(a, b),
            |i: Insight| i@,
            unsorted,
        );
    }
    if sorted.len() > MAX_CARDS {
        sorted.truncate(MAX_CARDS);
        assert(insights_view(sorted@) =~= sort_by(
            |a: InsightView, b: InsightView| more_severe(a, b),
            cv + correlations(cv),
        ).take(MAX_CARDS as int));
    }
    sorted
}

/// The cards the dashboard shows come most severe first and are never
/// more than `MAX_CARDS`; each of them is one of the given cards or one
/// of their correlation cards.
pub proof fn lemma_shown_cards_ordered(cs: Seq<InsightView>)
    ensures
        shown_cards(cs).len() <= MAX_CARDS,
        forall|i: int, j: int|
            0 <= i < j < shown_cards(cs).len() ==> severity_rank(shown_cards(cs)[i].severity)
                >= severity_rank(shown_cards(cs)[j].severity),
        forall|i: int|
            0 <= i < shown_cards(cs).len() ==> (cs + correlations(cs)).contains(
                #[trigger] shown_cards(cs)[i],
            ),
{
    broadcast use vstd::seq_lib::group_to_multiset_ensures;

    let le = |a: InsightView, b: InsightView| more_severe(a, b);
    let input = cs + correlations(cs);
    crate::sort::lemma_sort_by_sorted(le, input);
    lemma_sort_by_len(le, input);
    let all = sort_by(le, input);
    assert forall|i: int| 0 <= i < shown_cards(cs).len() implies input.contains(
        #[trigger] shown_cards(cs)[i],
    ) by {
        assert(shown_cards(cs)[i] == all[i]);
        assert(all.to_multiset().count(all[i]) > 0);
        assert(input.to_multiset().count(all[i]) > 0);
    }
    assert forall|i: int, j: int| 0 <= i < j < shown_cards(cs).len() implies severity_rank(
        shown_cards(cs)[i].severity,
    ) >= severity_rank(shown_cards(cs)[j].severity) by {
        assert(shown_cards(cs)[i] == all[i]);
        assert(shown_cards(cs)[j] == all[j]);
        assert(le(all[i], all[j]));
    }
}


/// The parent pids of the zombie processes (state `Z`) among `procs`
/// (state, parent pid), in order.
pub open spec fn zombie_parents(procs: Seq<(char, u32)>) -> Seq<u32>
    decreases procs.len(),
{
    if procs.len() == 0 {
        Seq::empty()
    } else {
        let p = zombie_parents(procs.drop_last());
        if procs.last().0 == 'Z' {
            p.push(procs.last().1)
        } else {
            p
        }
    }
}

/// `s` with each run of equal neighbours kept once.
pub open spec fn dedup(s: Seq<u32>) -> Seq<u32>
    decreases s.len(),
{
    if s.len() == 0 {
        s
    } else {
        let p = dedup(s.drop_last());
        if p.len() > 0 && p.last() == s.last() {
            p
        } else {
            p.push(s.last())
        }
    }
}

/// The first five distinct parent pids, smallest first.
pub open spec fn common_parents(procs: Seq<(char, u32)>) -> Seq<u32> {
    let d = dedup(sort_by(|a: u32, b: u32| a <= b, zombie_parents(procs)));
    if d.len() > 5 {
        d.take(5)
    } else {
        d
    }
}

/// What `insight_zombie_party` gives: a card once five or more processes
/// are zombies (critical from twenty-five), naming their common parents.
pub open spec fn zombie_card(procs: Seq<(char, u32)>) -> Option<InsightView> {
    let n = zombie_parents(procs).len();
    if n < 5 {
        None
    } else {
        Some(
            InsightView {
                severity: if n >= 25 {
                    Severity::Crit
                } else {
                    Severity::Warn
                },
                title: decimal(n) + " zombie processes — parent isn't reaping"@,
                body: seq![
                    "Common parent pids: "@ + join(
                        common_parents(procs).map_values(|p: u32| decimal(p as nat)),
                        ", "@,
                    ),
                    ZOMBIE_ADVICE@,
                ],
                suggested_tab: TabId::Procs,
                culprit: None,
            },
        )
    }
}

/// What the zombie card advises.
pub const ZOMBIE_ADVICE: &'static str =
    "Restart the parent or send it SIGCHLD; zombies hold no resources but indicate a bug.";

fn u32_le(a: &u32, b: &u32) -> (r: bool)
    ensures
        r == (*a <= *b),
{
    *a <= *b
}

/// A card when five or more of the processes `procs` (state, parent pid)
/// are zombies: a parent is not reaping its children.
pub fn insight_zombie_party(procs: &Vec<(char, u32)>) -> (r: Option<Insight>)
    ensures
        match r {
            Some(c) => zombie_card(procs@) == Some(c@),
            None => zombie_card(procs@) is None,
        },
{
    let mut zs: Vec<u32> = Vec::new();
    let mut i: usize = 0;
    while i < procs.len()
        invariant
            i <= procs@.len(),
            zs@ == zombie_parents(procs@.take(i as int)),
            zs@.len() <= i,
        decreases procs@.len() - i,
    {
        assert(procs@.take(i + 1).drop_last() =~= procs@.take(i as int));
        assert(procs@.take(i + 1).last() == procs@[i as int]);
        if procs[i].0 == 'Z' {
            zs.push(procs[i].1);
        }
        i += 1;
    }
    assert(procs@.take(procs@.len() as int) =~= procs@);
    let n = zs.len();
    if n < 5 {
        return None;
    }
    let sorted = insertion_sort(zs, u32_le, Ghost(|a: u32, b: u32| a <= b));
    let ghost srt = sorted@;
    let mut parents: Vec<u32> = Vec::new();
    let mut k: usize = 0;
    while k < sorted.len()
        invariant
            k <= sorted@.len(),
            srt == sorted@,
            parents@ == dedup(srt.take(k as int)),
        decreases sorted@.len() - k,
    {
        assert(srt.take(k + 1).drop_last() =~= srt.take(k as int));
        assert(srt.take(k + 1).last() == sorted@[k as int]);
        let x = sorted[k];
        let m = parents.len();
        if !(m > 0 && parents[m - 1] == x) {
            parents.push(x);
        }
        k += 1;
    }
    assert(srt.take(sorted@.len() as int) =~= srt);
    if parents.len() > 5 {
        parents.truncate(5);
    }
    let ghost cp = common_parents(procs@);
    assert(parents@ == cp);
    let mut line: Vec<char> = Vec::new();
    push_str(&mut line, "Common parent pids: ");
    let ghost head = line@;
    let ghost ws = cp.map_values(|p: u32| decimal(p as nat));
    let mut j: usize = 0;
    while j < parents.len()
        invariant
            j <= parents@.len(),
            parents@ == cp,
            ws == cp.map_values(|p: u32| decimal(p as nat)),
            line@ == head + join(ws.take(j as int), ", "@),
        decreases parents@.len() - j,
    {
        assert(ws.take(j + 1).drop_last() =~= ws.take(j as int));
        assert(ws.take(j + 1).last() == decimal(parents@[j as int] as nat));
        if j > 0 {
            push_str(&mut line, ", ");
        } else {
            assert(join(ws.take(0), ", "@) =~= Seq::<char>::empty());
        }
        push_decimal(&mut line, parents[j] as u64);
        proof {
            if j > 0 {
                assert(line@ =~= head + (join(ws.take(j as int), ", "@) + ", "@ + decimal(
                    parents@[j as int] as nat,
                )));
            } else {
                assert(line@ =~= head + join(ws.take(1), ", "@));
            }
        }
        j += 1;
    }
    assert(ws.take(parents@.len() as int) =~= ws);
    let mut title: Vec<char> = Vec::new();
    push_decimal(&mut title, n as u64);
    push_str(&mut title, " zombie processes — parent isn't reaping");
    assert(title@ =~= decimal(n as nat) + " zombie processes — parent isn't reaping"@);
    let mut body: Vec<String> = Vec::new();
    body.push(string_of(&line));
    body.push(ZOMBIE_ADVICE.to_owned());
    let card = Insight {
        severity: if n >= 25 {
            Severity::Crit
        } else {
            Severity::Warn
        },
        title: string_of(&title),
        body,
        suggested_tab: TabId::Procs,
        culprit: None,
    };
    assert(card@.body =~= seq![
        "Common parent pids: "@ + join(ws, ", "@),
        ZOMBIE_ADVICE@,
    ]);
    Some(card)
}


/// One mebibyte.
pub const MIB: u64 = 1048576;

/// Samples the swap check needs before it judges.
pub const SWAP_MIN_SAMPLES: usize = 8;

/// How far back, in samples, the swap check looks for its baseline.
pub const SWAP_WINDOW: usize = 30;

/// What the swap check found: how severe, swap used now, its growth
/// since the baseline, and where in the history the baseline sits.
#[derive(Debug, Clone, Copy, PartialEq, Eq, Structural)]
pub struct SwapThrash {
    pub severity: Severity,
    pub now: u64,
    pub growth: u64,
    pub baseline_idx: usize,
}

/// The verdict on a history of swap used (oldest first): judged only
/// from eight samples and 64 MiB swapped on; the growth is measured
/// against the sample thirty back (or the oldest), a Crit from 512 MiB
/// and a Warn from 100 MiB.
pub open spec fn swap_verdict(h: Seq<u64>) -> Option<SwapThrash> {
    if h.len() < SWAP_MIN_SAMPLES {
        None
    } else {
        let now = h.last();
        let b: int = if h.len() >= SWAP_WINDOW { h.len() - SWAP_WINDOW } else { 0 };
        let growth: u64 = if now >= h[b] { (now - h[b]) as u64 } else { 0 };
        if now < 64 * MIB {
            None
        } else if growth >= 512 * MIB {
            Some(SwapThrash { severity: Severity::Crit, now, growth, baseline_idx: b as usize })
        } else if growth >= 100 * MIB {
            Some(SwapThrash { severity: Severity::Warn, now, growth, baseline_idx: b as usize })
        } else {
            None
        }
    }
}

/// Judges a history of swap used, oldest first.
pub fn swap_thrash(history: &Vec<u64>) -> (r: Option<SwapThrash>)
    ensures
        r == swap_verdict(history@),
{
    let n = history.len();
    if n < SWAP_MIN_SAMPLES {
        return None;
    }
    let now = history[n - 1];
    if now < 64 * MIB {
        return None;
    }
    let b: usize = if n >= SWAP_WINDOW { n - SWAP_WINDOW } else { 0 };
    let growth = now.saturating_sub(history[b]);
    if growth >= 512 * MIB {
        Some(SwapThrash { severity: Severity::Crit, now, growth, baseline_idx: b })
    } else if growth >= 100 * MIB {
        Some(SwapThrash { severity: Severity::Warn, now, growth, baseline_idx: b })
    } else {
        None
    }
}

/// The memory figures of one process that the swap card can name it by.
#[derive(Debug, Clone, Copy, PartialEq, Eq, Structural)]
pub struct MemFigures {
    pub swap: Option<u64>,
    pub footprint: Option<u64>,
    pub pss: Option<u64>,
    pub rss: u64,
}

/// What the named culprit is blamed for holding the most of.
#[derive(Debug, Clone, Copy, PartialEq, Eq, Structural)]
pub enum CulpritBasis {
    Swap,
    /// The footprint, or the PSS where there is no footprint.
    Footprint,
    Rss,
}

/// The last position holding the largest of the present keys, with that
/// key; `None` when no key is present.
pub open spec fn last_max(keys: Seq<Option<u64>>) -> Option<(nat, u64)>
    decreases keys.len(),
{
    if keys.len() == 0 {
        None
    } else {
        let prev = last_max(keys.drop_last());
        match keys.last() {
            None => prev,
            Some(k) => match prev {
                None => Some(((keys.len() - 1) as nat, k)),
                Some(pm) => if k >= pm.1 {
                    Some(((keys.len() - 1) as nat, k))
                } else {
                    prev
                },
            },
        }
    }
}

/// Swap held, where it is known and above zero.
pub open spec fn swap_key(p: MemFigures) -> Option<u64> {
    match p.swap {
        Some(s) => if s > 0 {
            Some(s)
        } else {
            None
        },
        None => None,
    }
}

/// The footprint, else the PSS.
pub open spec fn footprint_key(p: MemFigures) -> Option<u64> {
    match p.footprint {
        Some(f) => Some(f),
        None => p.pss,
    }
}

/// The process the swap card names: the largest swap holder; where no
/// process reports swap, the largest footprint (or PSS); else the largest
/// resident set. Among equals the later process wins.
pub open spec fn swap_culprit_of(ps: Seq<MemFigures>) -> Option<(CulpritBasis, nat, u64)> {
    match last_max(ps.map_values(|p: MemFigures| swap_key(p))) {
        Some(m) => Some((CulpritBasis::Swap, m.0, m.1)),
        None => match last_max(ps.map_values(|p: MemFigures| footprint_key(p))) {
            Some(m) => Some((CulpritBasis::Footprint, m.0, m.1)),
            None => match last_max(ps.map_values(|p: MemFigures| Some(p.rss))) {
                Some(m) => Some((CulpritBasis::Rss, m.0, m.1)),
                None => None,
            },
        },
    }
}

fn swap_key_exec(p: &MemFigures) -> (r: Option<u64>)
    ensures
        r == swap_key(*p),
{
    match p.swap {
        Some(s) => if s > 0 {
            Some(s)
        } else {
            None
        },
        None => None,
    }
}

fn footprint_key_exec(p: &MemFigures) -> (r: Option<u64>)
    ensures
        r == footprint_key(*p),
{
    match p.footprint {
        Some(f) => Some(f),
        None => p.pss,
    }
}

fn rss_key_exec(p: &MemFigures) -> (r: Option<u64>)
    ensures
        r == Some(p.rss),
{
    Some(p.rss)
}

/// The last position of the largest key that `key` gives for `ps`.
fn last_max_by<F: Fn(&MemFigures) -> Option<u64>>(ps: &Vec<MemFigures>, key: F, Ghost(k): Ghost<
    spec_fn(MemFigures) -> Option<u64>,
>) -> (r: Option<(usize, u64)>)
    requires
        forall|p: MemFigures| key.requires((&p,)),
        forall|p: MemFigures, o: Option<u64>| key.ensures((&p,), o) ==> o == k(p),
    ensures
        match r {
            Some(m) => last_max(ps@.map_values(|p: MemFigures| k(p))) == Some((m.0 as nat, m.1)),
            None => last_max(ps@.map_values(|p: MemFigures| k(p))) is None,
        },
{
    let ghost keys = ps@.map_values(|p: MemFigures| k(p));
    let mut best: Option<(usize, u64)> = None;
    let mut i: usize = 0;
    while i < ps.len()
        invariant
            i <= ps@.len(),
            keys == ps@.map_values(|p: MemFigures| k(p)),
            forall|p: MemFigures| key.requires((&p,)),
            forall|p: MemFigures, o: Option<u64>| key.ensures((&p,), o) ==> o == k(p),
            match best {
                Some(m) => last_max(keys.take(i as int)) == Some((m.0 as nat, m.1)),
                None => last_max(keys.take(i as int)) is None,
            },
        decreases ps@.len() - i,
    {
        assert(keys.take(i + 1).drop_last() =~= keys.take(i as int));
        assert(keys.take(i + 1).last() == k(ps@[i as int]));
        let v = key(&ps[i]);
        match v {
            Some(x) => {
                let replace = match best {
                    None => true,
                    Some(m) => x >= m.1,
                };
                if replace {
                    best = Some((i, x));
                }
            },
            None => {},
        }
        i += 1;
    }
    assert(keys.take(ps@.len() as int) =~= keys);
    best
}

/// The process the swap card names, by position in `ps`, with what it is
/// blamed for and the figure; `None` for no processes.
pub fn swap_culprit(ps: &Vec<MemFigures>) -> (r: Option<(CulpritBasis, usize, u64)>)
    ensures
        match r {
            Some(c) => swap_culprit_of(ps@) == Some((c.0, c.1 as nat, c.2)),
            None => swap_culprit_of(ps@) is None,
        },
{
    let ghost ks = |p: MemFigures| swap_key(p);
    let ghost kf = |p: MemFigures| footprint_key(p);
    let ghost kr = |p: MemFigures| Some(p.rss);
    assert(ps@.map_values(|p: MemFigures| ks(p)) =~= ps@.map_values(|p: MemFigures| swap_key(p)));
    assert(ps@.map_values(|p: MemFigures| kf(p)) =~= ps@.map_values(|p: MemFigures| footprint_key(p)));
    assert(ps@.map_values(|p: MemFigures| kr(p)) =~= ps@.map_values(|p: MemFigures| Some(p.rss)));
    match last_max_by(ps, swap_key_exec, Ghost(ks)) {
        Some(m) => {
            return Some((CulpritBasis::Swap, m.0, m.1));
        },
        None => {},
    }
    match last_max_by(ps, footprint_key_exec, Ghost(kf)) {
        Some(m) => {
            return Some((CulpritBasis::Footprint, m.0, m.1));
        },
        None => {},
    }
    match last_max_by(ps, rss_key_exec, Ghost(kr)) {
        Some(m) => Some((CulpritBasis::Rss, m.0, m.1)),
        None => None,
    }
}

/// The position `last_max` gives holds the largest present key, and no
/// later position holds one as large.
pub proof fn lemma_last_max(keys: Seq<Option<u64>>)
    ensures
        match last_max(keys) {
            Some(m) => {
                &&& m.0 < keys.len()
                &&& keys[m.0 as int] == Some(m.1)
                &&& forall|j: int| 0 <= j < keys.len() && keys[j] is Some ==> keys[j]->0 <= m.1
                &&& forall|j: int| m.0 < j < keys.len() && keys[j] is Some ==> keys[j]->0 < m.1
            },
            None => forall|j: int| 0 <= j < keys.len() ==> keys[j] is None,
        },
    decreases keys.len(),
{
    if keys.len() > 0 {
        let init = keys.drop_last();
        lemma_last_max(init);
        assert forall|j: int| 0 <= j < init.len() implies init[j] == keys[j] by {}
    }
}

/// The swap card blames the process holding the most swap: the one it
/// names holds that much, no process holds more, and no later process
/// holds as much.
pub proof fn lemma_swap_culprit_holds_most(ps: Seq<MemFigures>)
    requires
        swap_culprit_of(ps) is Some,
        (swap_culprit_of(ps)->0).0 == CulpritBasis::Swap,
    ensures
        ({
            let c = swap_culprit_of(ps)->0;
            &&& c.1 < ps.len()
            &&& ps[c.1 as int].swap == Some(c.2)
            &&& forall|j: int| 0 <= j < ps.len() && ps[j].swap is Some ==> ps[j].swap->0 <= c.2
            &&& forall|j: int| c.1 < j < ps.len() && ps[j].swap is Some ==> ps[j].swap->0 < c.2
        }),
{
    let keys = ps.map_values(|p: MemFigures| swap_key(p));
    lemma_last_max(keys);
    let m = last_max(keys)->0;
    assert(swap_culprit_of(ps) == Some((CulpritBasis::Swap, m.0, m.1)));
    assert(keys[m.0 as int] == swap_key(ps[m.0 as int]));
    assert(m.1 > 0);
    assert forall|j: int| 0 <= j < ps.len() && ps[j].swap is Some implies ps[j].swap->0 <= m.1 by {
        assert(keys[j] == swap_key(ps[j]));
    }
    assert forall|j: int| m.0 < j < ps.len() && ps[j].swap is Some implies ps[j].swap->0 < m.1 by {
        assert(keys[j] == swap_key(ps[j]));
    }
}

} // verus!
