//! Views of the log: the tabs that show one kind of event each, and the count
//! of sales and purchases of each of the last days.

use vstd::prelude::*;
use crate::sorted_map::{listing_of, SortedMap};
use crate::store::{lemma_filter_push, Historico, HistoricoView, Operacao};
use crate::text::{find_char, from_chars, lex_lt, position, to_chars};

verus! {

/// A tab of the history view: all events, or those of one kind.
#[derive(Clone, Copy, Debug, PartialEq, Eq, Structural)]
pub enum HistoricoTab {
    Todos,
    Compras,
    Vendas,
    Aquisicoes,
}

impl HistoricoTab {
    /// The place of the tab in the row of tabs, from the left.
    pub open spec fn position(self) -> int {
        match self {
            HistoricoTab::Todos => 0,
            HistoricoTab::Compras => 1,
            HistoricoTab::Vendas => 2,
            HistoricoTab::Aquisicoes => 3,
        }
    }

    /// The tab at the place `i` of the row.
    pub open spec fn at(i: int) -> HistoricoTab {
        if i == 0 {
            HistoricoTab::Todos
        } else if i == 1 {
            HistoricoTab::Compras
        } else if i == 2 {
            HistoricoTab::Vendas
        } else {
            HistoricoTab::Aquisicoes
        }
    }

    /// The tab to the right, or the first one after the last.
    pub open spec fn right(self) -> HistoricoTab {
        Self::at((self.position() + 1) % 4)
    }

    /// The tab to the left, or the last one before the first.
    pub open spec fn left(self) -> HistoricoTab {
        Self::at((self.position() + 3) % 4)
    }

    /// Whether the tab shows events of the kind `op`.
    pub open spec fn shows(self, op: Operacao) -> bool {
        match self {
            HistoricoTab::Todos => true,
            HistoricoTab::Compras => op == Operacao::Compra,
            HistoricoTab::Vendas => op == Operacao::Venda,
            HistoricoTab::Aquisicoes => op == Operacao::Cadastro,
        }
    }

    /// The headings of the tabs, from the left.
    pub fn titles() -> (t: &'static [&'static str])
        ensures
            t@.len() == 4,
            t@[0]@ == "Todos"@,
            t@[1]@ == "Compras"@,
            t@[2]@ == "Vendas"@,
            t@[3]@ == "Aquisições"@,
    {
        &["Todos", "Compras", "Vendas", "Aquisições"]
    }

    /// The place of the tab in the row of tabs, from the left.
    pub fn index(&self) -> (i: usize)
        ensures
            i == self.position(),
    {
        match self {
            HistoricoTab::Todos => 0,
            HistoricoTab::Compras => 1,
            HistoricoTab::Vendas => 2,
            HistoricoTab::Aquisicoes => 3,
        }
    }

    /// The tab at place `i` of the row, which goes round after the fourth.
    pub fn from_index(i: usize) -> (t: HistoricoTab)
        ensures
            t == Self::at((i % 4) as int),
    {
        let k = i % 4;
        if k == 0 {
            HistoricoTab::Todos
        } else if k == 1 {
            HistoricoTab::Compras
        } else if k == 2 {
            HistoricoTab::Vendas
        } else {
            HistoricoTab::Aquisicoes
        }
    }

    /// The tab to the right, or the first one after the last.
    pub fn next(&self) -> (t: HistoricoTab)
        ensures
            t == self.right(),
    {
        Self::from_index(self.index() + 1)
    }

    /// The tab to the left, or the last one before the first.
    pub fn prev(&self) -> (t: HistoricoTab)
        ensures
            t == self.left(),
    {
        Self::from_index(self.index() + 3)
    }

    /// Whether the tab shows events of the kind `op`.
    pub fn accepts(&self, op: Operacao) -> (b: bool)
        ensures
            b == self.shows(op),
    {
        match self {
            HistoricoTab::Todos => true,
            HistoricoTab::Compras => op == Operacao::Compra,
            HistoricoTab::Vendas => op == Operacao::Venda,
            HistoricoTab::Aquisicoes => op == Operacao::Cadastro,
        }
    }
}

/// The tabs go round: a step to the right moves one place on, a step to the
/// left undoes it, and four steps either way come back to the same tab.
pub proof fn lemma_tabs_go_round(t: HistoricoTab)
    ensures
        t.right().position() == (t.position() + 1) % 4,
        t.left().position() == (t.position() + 3) % 4,
        t.right().left() == t,
        t.left().right() == t,
        t.right().right().right().right() == t,
        t.left().left().left().left() == t,
        HistoricoTab::at(t.position()) == t,
{
}

/// The events that a tab shows: the predicate.
pub open spec fn in_tab(tab: HistoricoTab) -> spec_fn(HistoricoView) -> bool {
    |h: HistoricoView| tab.shows(h.operacao)
}

/// The events of `entries` that the tab shows, in the order of `entries`.
pub fn filter_by_tab(entries: &Vec<Historico>, tab: HistoricoTab) -> (r: Vec<Historico>)
    ensures
        r.deep_view() == entries.deep_view().filter(in_tab(tab)),
{
    let mut r: Vec<Historico> = Vec::new();
    let mut i: usize = 0;
    let ghost all = entries.deep_view();
    proof {
        reveal(Seq::filter);
        assert(all.take(0).filter(in_tab(tab)) =~= Seq::<HistoricoView>::empty());
        assert(r.deep_view() =~= Seq::<HistoricoView>::empty());
    }
    while i < entries.len()
        invariant
            i <= entries.len(),
            all == entries.deep_view(),
            r.deep_view() == all.take(i as int).filter(in_tab(tab)),
        decreases entries.len() - i,
    {
        proof {
            assert(all.take(i + 1) =~= all.take(i as int).push(all[i as int]));
            lemma_filter_push(all.take(i as int), all[i as int], in_tab(tab));
        }
        if tab.accepts(entries[i].operacao) {
            let ghost before = r.deep_view();
            let entry = entries[i].clone();
            r.push(entry);
            assert(r.deep_view() =~= before.push(entry@));
        }
        i += 1;
    }
    assert(all.take(i as int) =~= all);
    r
}

/// The first tab shows every event, as it stands.
pub proof fn lemma_first_tab_shows_all(entries: Seq<HistoricoView>)
    ensures
        entries.filter(in_tab(HistoricoTab::Todos)) == entries,
    decreases entries.len(),
{
    reveal(Seq::filter);
    if entries.len() > 0 {
        lemma_first_tab_shows_all(entries.drop_last());
        assert(entries =~= entries.drop_last().push(entries.last()));
    }
}

/// Every event is shown by exactly one of the three tabs of a kind.
pub proof fn lemma_one_tab_per_event(h: HistoricoView)
    ensures
        in_tab(HistoricoTab::Todos)(h),
        in_tab(HistoricoTab::Compras)(h) || in_tab(HistoricoTab::Vendas)(h) || in_tab(
            HistoricoTab::Aquisicoes,
        )(h),
        !(in_tab(HistoricoTab::Compras)(h) && in_tab(HistoricoTab::Vendas)(h)),
        !(in_tab(HistoricoTab::Compras)(h) && in_tab(HistoricoTab::Aquisicoes)(h)),
        !(in_tab(HistoricoTab::Vendas)(h) && in_tab(HistoricoTab::Aquisicoes)(h)),
{
}

/// The three tabs of a kind share out the events among them: together they
/// show each event as often as it stands in the log, neither more nor less.
pub proof fn lemma_tabs_partition(entries: Seq<HistoricoView>)
    ensures
        entries.filter(in_tab(HistoricoTab::Compras)).to_multiset().add(
            entries.filter(in_tab(HistoricoTab::Vendas)).to_multiset(),
        ).add(entries.filter(in_tab(HistoricoTab::Aquisicoes)).to_multiset())
            == entries.to_multiset(),
        entries.filter(in_tab(HistoricoTab::Compras)).len() + entries.filter(
            in_tab(HistoricoTab::Vendas),
        ).len() + entries.filter(in_tab(HistoricoTab::Aquisicoes)).len() == entries.len(),
    decreases entries.len(),
{
    broadcast use vstd::seq_lib::to_multiset_build;

    reveal(Seq::filter);
    let c = in_tab(HistoricoTab::Compras);
    let v = in_tab(HistoricoTab::Vendas);
    let a = in_tab(HistoricoTab::Aquisicoes);
    if entries.len() == 0 {
        entries.to_multiset_ensures();
        assert(entries.filter(c) =~= entries);
        assert(entries.filter(v) =~= entries);
        assert(entries.filter(a) =~= entries);
        assert(entries.filter(c).to_multiset().add(entries.filter(v).to_multiset()).add(
            entries.filter(a).to_multiset(),
        ) =~= entries.to_multiset());
    } else {
        let head = entries.drop_last();
        let last = entries.last();
        lemma_tabs_partition(head);
        lemma_one_tab_per_event(last);
        assert(entries =~= head.push(last));
        lemma_filter_push(head, last, c);
        lemma_filter_push(head, last, v);
        lemma_filter_push(head, last, a);
        assert(entries.filter(c).to_multiset().add(entries.filter(v).to_multiset()).add(
            entries.filter(a).to_multiset(),
        ) =~= head.to_multiset().insert(last));
    }
}

/// The date of a timestamp: what stands before its first space. A timestamp
/// without a space has no date.
pub open spec fn date_of(timestamp: Seq<char>) -> Option<Seq<char>> {
    let p = position(timestamp, ' ');
    if p < timestamp.len() {
        Some(timestamp.take(p))
    } else {
        None
    }
}

/// The short form of a date: of a date in three parts with `-` between them,
/// as in year-month-day, the third part, a stroke, and the second. Any other
/// text stays as it is.
pub open spec fn short_date(date: Seq<char>) -> Seq<char> {
    let i = position(date, '-');
    let rest = date.skip(i + 1);
    let j = position(rest, '-');
    let day = rest.skip(j + 1);
    if i < date.len() && j < rest.len() && position(day, '-') == day.len() {
        day + seq!['/'] + rest.take(j)
    } else {
        date
    }
}

/// The date of a timestamp, if it has one.
pub fn date_string(timestamp: &str) -> (r: Option<String>)
    ensures
        match r {
            Some(d) => date_of(timestamp@) == Some(d@),
            None => date_of(timestamp@) is None,
        },
{
    let chars = to_chars(timestamp);
    assert(chars@.skip(0) =~= chars@);
    let p = find_char(&chars, 0, ' ');
    if p < chars.len() {
        let d = from_chars(&chars, 0, p);
        assert(chars@.subrange(0, p as int) =~= chars@.take(p as int));
        Some(d)
    } else {
        None
    }
}

/// The short form of a date, for the labels of the chart.
pub fn short_date_string(date: &str) -> (r: String)
    ensures
        r@ == short_date(date@),
{
    let chars = to_chars(date);
    let n = chars.len();
    assert(chars@.skip(0) =~= chars@);
    let i = find_char(&chars, 0, '-');
    if i < n {
        let ghost rest = chars@.skip(i + 1);
        let j = find_char(&chars, i + 1, '-');
        if j < n {
            let ghost day = rest.skip(j - i);
            assert(day =~= chars@.skip(j + 1));
            let k = find_char(&chars, j + 1, '-');
            if k == n {
                let mut r = from_chars(&chars, j + 1, n);
                r.push('/');
                let month = from_chars(&chars, i + 1, j);
                r.append(month.as_str());
                assert(chars@.subrange(j + 1, n as int) =~= day);
                assert(chars@.subrange(i + 1, j as int) =~= rest.take(j - i - 1));
                return r;
            }
        }
    }
    from_chars(&chars, 0, n)
}

/// The events of the kind `op` on the day `day`: the predicate.
pub open spec fn on_day(day: Seq<char>, op: Operacao) -> spec_fn(HistoricoView) -> bool {
    |h: HistoricoView| date_of(h.timestamp) == Some(day) && h.operacao == op
}

/// How many events of the kind `op` the log holds on the day `day`.
pub open spec fn count_on(log: Seq<HistoricoView>, day: Seq<char>, op: Operacao) -> nat {
    log.filter(on_day(day, op)).len()
}

/// Whether the log holds an event, of any kind, on the day `day`.
pub open spec fn has_day(log: Seq<HistoricoView>, day: Seq<char>) -> bool {
    exists|i: int| 0 <= i < log.len() && date_of((#[trigger] log[i]).timestamp) == Some(day)
}

/// For each day on which the log holds an event, the number of its sales and
/// the number of its purchases.
pub open spec fn tally(log: Seq<HistoricoView>) -> Map<Seq<char>, (usize, usize)> {
    Map::new(
        |day: Seq<char>| has_day(log, day),
        |day: Seq<char>|
            (
                count_on(log, day, Operacao::Venda) as usize,
                count_on(log, day, Operacao::Compra) as usize,
            ),
    )
}

/// The days of the chart: the last seven days on which the log holds an event,
/// or all of them when they are fewer, in ascending order, each with the number
/// of its sales and the number of its purchases.
pub open spec fn recent_days(log: Seq<HistoricoView>) -> Seq<(Seq<char>, usize, usize)> {
    let all = listing_of(tally(log));
    let n = if all.len() > 7 {
        7
    } else {
        all.len() as int
    };
    Seq::new(
        n as nat,
        |i: int|
            (all[all.len() - n + i].0, all[all.len() - n + i].1.0, all[all.len() - n + i].1.1),
    )
}

/// The days of the chart with their dates in the short form.
pub open spec fn chart_days(log: Seq<HistoricoView>) -> Seq<(Seq<char>, usize, usize)> {
    let days = recent_days(log);
    Seq::new(days.len(), |i: int| (short_date(days[i].0), days[i].1, days[i].2))
}

/// A count never exceeds the length of the log.
proof fn lemma_count_bound(log: Seq<HistoricoView>, day: Seq<char>, op: Operacao)
    ensures
        count_on(log, day, op) <= log.len(),
{
    log.lemma_filter_len(on_day(day, op));
}

/// A day on which the log holds no event counts nothing.
proof fn lemma_count_absent(log: Seq<HistoricoView>, day: Seq<char>, op: Operacao)
    requires
        !has_day(log, day),
    ensures
        count_on(log, day, op) == 0,
    decreases log.len(),
{
    reveal(Seq::filter);
    if log.len() > 0 {
        let head = log.drop_last();
        assert(log =~= head.push(log.last()));
        assert forall|i: int| 0 <= i < head.len() implies date_of((#[trigger] head[i]).timestamp)
            != Some(day) by {
            assert(head[i] == log[i]);
        }
        lemma_count_absent(head, day, op);
        lemma_filter_push(head, log.last(), on_day(day, op));
        assert(log[log.len() - 1] == log.last());
    }
}

/// What one more event changes in the tally: nothing when it has no date, and
/// else the counts of its day, of which the one of its kind grows by one.
proof fn lemma_tally_push(log: Seq<HistoricoView>, e: HistoricoView)
    requires
        log.len() < usize::MAX,
    ensures
        date_of(e.timestamp) is None ==> tally(log.push(e)) == tally(log),
        date_of(e.timestamp) matches Some(day) ==> {
            let (sales, purchases) = if has_day(log, day) {
                tally(log)[day]
            } else {
                (0usize, 0usize)
            };
            &&& sales <= log.len()
            &&& purchases <= log.len()
            &&& tally(log.push(e)) == tally(log).insert(
                day,
                (
                    if e.operacao == Operacao::Venda {
                        (sales + 1) as usize
                    } else {
                        sales
                    },
                    if e.operacao == Operacao::Compra {
                        (purchases + 1) as usize
                    } else {
                        purchases
                    },
                ),
            )
        },
{
    let more = log.push(e);
    assert forall|d: Seq<char>| has_day(more, d) <==> (has_day(log, d) || date_of(e.timestamp)
        == Some(d)) by {
        if has_day(more, d) {
            let i = choose|i: int| 0 <= i < more.len() && date_of((#[trigger] more[i]).timestamp)
                == Some(d);
            if i < log.len() {
                assert(more[i] == log[i]);
            }
        }
        if has_day(log, d) {
            let i = choose|i: int| 0 <= i < log.len() && date_of((#[trigger] log[i]).timestamp)
                == Some(d);
            assert(more[i] == log[i]);
        }
        if date_of(e.timestamp) == Some(d) {
            assert(more[log.len() as int] == e);
        }
    }
    assert forall|d: Seq<char>, op: Operacao|
        count_on(more, d, op) == count_on(log, d, op) + if date_of(e.timestamp) == Some(d)
            && e.operacao == op {
            1int
        } else {
            0int
        } by {
        lemma_filter_push(log, e, on_day(d, op));
    }
    match date_of(e.timestamp) {
        None => {
            assert(tally(more) =~= tally(log));
        },
        Some(day) => {
            lemma_count_bound(log, day, Operacao::Venda);
            lemma_count_bound(log, day, Operacao::Compra);
            if !has_day(log, day) {
                lemma_count_absent(log, day, Operacao::Venda);
                lemma_count_absent(log, day, Operacao::Compra);
            }
            let (sales, purchases) = if has_day(log, day) {
                tally(log)[day]
            } else {
                (0usize, 0usize)
            };
            let bumped = tally(log).insert(
                day,
                (
                    if e.operacao == Operacao::Venda {
                        (sales + 1) as usize
                    } else {
                        sales
                    },
                    if e.operacao == Operacao::Compra {
                        (purchases + 1) as usize
                    } else {
                        purchases
                    },
                ),
            );
            assert(tally(more) =~= bumped);
        },
    }
}

/// Counts the sales and the purchases of each day of the log.
fn day_counts(log: &Vec<Historico>) -> (m: SortedMap<(usize, usize)>)
    ensures
        m.wf(),
        m@ == tally(log.deep_view()),
{
    let mut m: SortedMap<(usize, usize)> = SortedMap::new();
    let ghost all = log.deep_view();
    let mut i: usize = 0;
    assert(m@ =~= tally(all.take(0)));
    while i < log.len()
        invariant
            i <= log.len(),
            all == log.deep_view(),
            m.wf(),
            m@ == tally(all.take(i as int)),
        decreases log.len() - i,
    {
        proof {
            assert(all.take(i + 1) =~= all.take(i as int).push(all[i as int]));
            lemma_tally_push(all.take(i as int), all[i as int]);
        }
        match date_string(log[i].timestamp.as_str()) {
            None => {},
            Some(day) => {
                let (sales, purchases) = match m.get(day.as_str()) {
                    Some(counts) => counts,
                    None => (0, 0),
                };
                let counts = match log[i].operacao {
                    Operacao::Venda => (sales + 1, purchases),
                    Operacao::Compra => (sales, purchases + 1),
                    Operacao::Cadastro => (sales, purchases),
                };
                m.insert(day, counts);
            },
        }
        i += 1;
    }
    assert(all.take(i as int) =~= all);
    m
}

/// The days of the chart: for each of the last seven days on which the log
/// holds an event, or for all of them when they are fewer, the date and the
/// number of sales and of purchases on it, the earliest day first.
/// Registrations make a day but are not counted.
pub fn daily_buckets(log: &Vec<Historico>) -> (r: Vec<(String, usize, usize)>)
    ensures
        r.deep_view() == recent_days(log.deep_view()),
        r.len() <= 7,
        forall|i: int, j: int|
            0 <= i < j < r.len() ==> lex_lt((#[trigger] r.deep_view()[i]).0, (#[trigger] r.deep_view()[j]).0),
        forall|i: int|
            0 <= i < r.len() ==> {
                let day = (#[trigger] r.deep_view()[i]).0;
                &&& has_day(log.deep_view(), day)
                &&& r.deep_view()[i].1 == count_on(log.deep_view(), day, Operacao::Venda)
                &&& r.deep_view()[i].2 == count_on(log.deep_view(), day, Operacao::Compra)
            },
        forall|day: Seq<char>|
            has_day(log.deep_view(), day) ==> (exists|i: int|
                0 <= i < r.len() && (#[trigger] r.deep_view()[i]).0 == day) || (r.len() == 7 && lex_lt(
                day,
                r.deep_view()[0].0,
            )),
{
    let m = day_counts(log);
    let ghost all = m.listing();
    let ghost h = log.deep_view();
    proof {
        m.lemma_listing();
    }
    let len = m.len();
    let n: usize = if len > 7 {
        7
    } else {
        len
    };
    let first = len - n;
    let mut r: Vec<(String, usize, usize)> = Vec::new();
    let mut i: usize = 0;
    while i < n
        invariant
            i <= n <= len,
            first == len - n,
            len == m.listing().len(),
            all == m.listing(),
            r.len() == i,
            forall|k: int|
                0 <= k < i ==> (#[trigger] r.deep_view()[k]) == (
                    all[first + k].0,
                    all[first + k].1.0,
                    all[first + k].1.1,
                ),
        decreases n - i,
    {
        let ghost before = r.deep_view();
        let (sales, purchases) = m.value_at(first + i);
        let row = (m.key_at(first + i).clone(), sales, purchases);
        r.push(row);
        assert(r.deep_view() =~= before.push(row.deep_view()));
        i += 1;
    }
    proof {
        let v = r.deep_view();
        assert(v =~= recent_days(h));
        assert forall|i: int| 0 <= i < v.len() implies {
            let day = (#[trigger] v[i]).0;
            &&& has_day(h, day)
            &&& v[i].1 == count_on(h, day, Operacao::Venda)
            &&& v[i].2 == count_on(h, day, Operacao::Compra)
        } by {
            let day = v[i].0;
            assert(v[i] == (all[first + i].0, all[first + i].1.0, all[first + i].1.1));
            assert(tally(h).contains_pair(all[first + i].0, all[first + i].1));
            assert(tally(h).dom().contains(day));
            assert(h.len() == log.len());
            lemma_count_bound(h, day, Operacao::Venda);
            lemma_count_bound(h, day, Operacao::Compra);
        }
        assert forall|i: int, j: int| 0 <= i < j < v.len() implies lex_lt(
            (#[trigger] v[i]).0,
            (#[trigger] v[j]).0,
        ) by {
            assert(lex_lt(all[first + i].0, all[first + j].0));
        }
        assert forall|day: Seq<char>| has_day(h, day) implies (exists|i: int|
            0 <= i < v.len() && (#[trigger] v[i]).0 == day) || (v.len() == 7 && lex_lt(day, v[0].0)) by {
            assert(tally(h).dom().contains(day));
            let k = choose|k: int| 0 <= k < all.len() && #[trigger] all[k].0 == day;
            if k >= first {
                assert(v[k - first].0 == day);
            } else {
                assert(lex_lt(all[k].0, all[first as int].0));
                assert(v[0].0 == all[first as int].0);
            }
        }
    }
    r
}

/// The days of the chart with their dates in the short form, for the labels.
pub fn chart_buckets(log: &Vec<Historico>) -> (r: Vec<(String, usize, usize)>)
    ensures
        r.deep_view() == chart_days(log.deep_view()),
        r.len() <= 7,
{
    let days = daily_buckets(log);
    let mut r: Vec<(String, usize, usize)> = Vec::new();
    let mut i: usize = 0;
    while i < days.len()
        invariant
            i <= days.len(),
            r.len() == i,
            forall|k: int|
                0 <= k < i ==> (#[trigger] r.deep_view()[k]) == (
                    short_date(days.deep_view()[k].0),
                    days.deep_view()[k].1,
                    days.deep_view()[k].2,
                ),
        decreases days.len() - i,
    {
        let ghost before = r.deep_view();
        assert(days.deep_view()[i as int] == days[i as int].deep_view());
        let row = (short_date_string(days[i].0.as_str()), days[i].1, days[i].2);
        r.push(row);
        assert(r.deep_view() =~= before.push(row.deep_view()));
        i += 1;
    }
    assert(r.deep_view() =~= chart_days(log.deep_view()));
    r
}

} // verus!
