//! The inventory: the quantity on hand of each code, and the log of every
//! registration, purchase and sale.

use vstd::prelude::*;
use crate::rank::{is_ranking, rank, ranked_view, ranking_of, without_values};
use crate::sorted_map::{lists, listing_of, SortedMap};
use crate::text::same;

verus! {

/// The kind of an event in the log.
#[derive(Clone, Copy, Debug, PartialEq, Eq, Structural)]
pub enum Operacao {
    Cadastro,
    Compra,
    Venda,
}

impl Operacao {
    /// The word under which the kind is written where the log is kept.
    pub open spec fn label(self) -> Seq<char> {
        match self {
            Operacao::Cadastro => "CADASTRO"@,
            Operacao::Compra => "COMPRA"@,
            Operacao::Venda => "VENDA"@,
        }
    }

    /// The word under which the kind is written where the log is kept.
    pub fn rotulo(&self) -> (s: &'static str)
        ensures
            s@ == self.label(),
    {
        match self {
            Operacao::Cadastro => "CADASTRO",
            Operacao::Compra => "COMPRA",
            Operacao::Venda => "VENDA",
        }
    }

    /// The kind that the word `s` names, if it names one.
    pub fn from_rotulo(s: &str) -> (r: Option<Operacao>)
        ensures
            match r {
                Some(op) => s@ == op.label(),
                None => forall|op: Operacao| s@ != op.label(),
            },
    {
        if same(s, "CADASTRO") {
            Some(Operacao::Cadastro)
        } else if same(s, "COMPRA") {
            Some(Operacao::Compra)
        } else if same(s, "VENDA") {
            Some(Operacao::Venda)
        } else {
            None
        }
    }
}

/// No two kinds are written with the same word.
pub proof fn lemma_labels_differ(a: Operacao, b: Operacao)
    requires
        a.label() == b.label(),
    ensures
        a == b,
{
    reveal_strlit("CADASTRO");
    reveal_strlit("COMPRA");
    reveal_strlit("VENDA");
    assert(Operacao::Cadastro.label().len() == 8);
    assert(Operacao::Compra.label().len() == 6);
    assert(Operacao::Venda.label().len() == 5);
}

/// An item: a code and the quantity on hand.
#[derive(Debug, PartialEq, Eq)]
pub struct Relogio {
    pub codigo: String,
    pub quantidade: i32,
}

impl View for Relogio {
    type V = (Seq<char>, i32);

    open spec fn view(&self) -> (Seq<char>, i32) {
        (self.codigo@, self.quantidade)
    }
}

impl DeepView for Relogio {
    type V = (Seq<char>, i32);

    open spec fn deep_view(&self) -> (Seq<char>, i32) {
        self@
    }
}

impl Clone for Relogio {
    fn clone(&self) -> (r: Self)
        ensures
            r@ == self@,
    {
        Relogio { codigo: self.codigo.clone(), quantidade: self.quantidade }
    }
}

/// One event of the log as a plain value.
pub struct HistoricoView {
    pub codigo: Seq<char>,
    pub quantidade: i32,
    pub operacao: Operacao,
    pub timestamp: Seq<char>,
}

/// One event of the log: what was done to which code, with what quantity, and
/// when.
#[derive(Debug, PartialEq, Eq)]
pub struct Historico {
    pub codigo: String,
    pub quantidade: i32,
    pub operacao: Operacao,
    pub timestamp: String,
}

impl View for Historico {
    type V = HistoricoView;

    open spec fn view(&self) -> HistoricoView {
        HistoricoView {
            codigo: self.codigo@,
            quantidade: self.quantidade,
            operacao: self.operacao,
            timestamp: self.timestamp@,
        }
    }
}

impl DeepView for Historico {
    type V = HistoricoView;

    open spec fn deep_view(&self) -> HistoricoView {
        self@
    }
}

impl Clone for Historico {
    fn clone(&self) -> (r: Self)
        ensures
            r@ == self@,
    {
        Historico {
            codigo: self.codigo.clone(),
            quantidade: self.quantidade,
            operacao: self.operacao,
            timestamp: self.timestamp.clone(),
        }
    }
}

/// How a request to the store ended.
#[derive(Clone, Copy, Debug, PartialEq, Eq, Structural)]
pub enum Outcome {
    /// The quantity changed and one event was logged.
    Accepted,
    /// A sale of a code that the store does not hold.
    NotFound,
    /// A sale of more than is on hand.
    Insufficient,
    /// The new quantity would not fit the machine's integers.
    OutOfRange,
}

/// The store as a plain value: the quantity of each code, and the log, oldest
/// event first.
pub struct StoreModel {
    pub itens: Map<Seq<char>, i32>,
    pub historico: Seq<HistoricoView>,
}

/// The events of `log` that concern `code`: the predicate.
pub open spec fn of_code(code: Seq<char>) -> spec_fn(HistoricoView) -> bool {
    |h: HistoricoView| h.codigo == code
}

/// Some event of `log` concerns `code`.
pub open spec fn speaks_of(log: Seq<HistoricoView>, code: Seq<char>) -> bool {
    exists|i: int| 0 <= i < log.len() && (#[trigger] log[i]).codigo == code
}

/// The codes that the events of `log` concern.
pub open spec fn codes_of(log: Seq<HistoricoView>) -> Map<Seq<char>, ()> {
    Map::new(|code: Seq<char>| speaks_of(log, code), |code: Seq<char>| ())
}

/// The map that a sequence of items makes when each is put into it in turn, a
/// later item taking the place of an earlier one of the same code.
pub open spec fn records_map(items: Seq<(Seq<char>, i32)>) -> Map<Seq<char>, i32>
    decreases items.len(),
{
    if items.len() == 0 {
        Map::empty()
    } else {
        records_map(items.drop_last()).insert(items.last().0, items.last().1)
    }
}

impl StoreModel {
    /// The event that a request logs.
    pub open spec fn event(
        operacao: Operacao,
        code: Seq<char>,
        quantity: i32,
        timestamp: Seq<char>,
    ) -> HistoricoView {
        HistoricoView { codigo: code, quantidade: quantity, operacao, timestamp }
    }

    /// The store after a registration: the code has the given quantity, whatever
    /// it had before.
    pub open spec fn register(self, code: Seq<char>, quantity: i32, timestamp: Seq<char>) -> StoreModel {
        StoreModel {
            itens: self.itens.insert(code, quantity),
            historico: self.historico.push(
                Self::event(Operacao::Cadastro, code, quantity, timestamp),
            ),
        }
    }

    /// The quantity on hand of a code, 0 for a code that the store does not hold.
    pub open spec fn on_hand(self, code: Seq<char>) -> int {
        if self.itens.dom().contains(code) {
            self.itens[code] as int
        } else {
            0
        }
    }

    /// How a purchase ends: it is accepted unless the sum is out of range.
    pub open spec fn buy_outcome(self, code: Seq<char>, quantity: i32) -> Outcome {
        if i32::MIN <= self.on_hand(code) + quantity <= i32::MAX {
            Outcome::Accepted
        } else {
            Outcome::OutOfRange
        }
    }

    /// The store after a purchase: the quantity is added to what is on hand, and
    /// a code that was not there is there from now on.
    pub open spec fn buy(self, code: Seq<char>, quantity: i32, timestamp: Seq<char>) -> StoreModel {
        if self.buy_outcome(code, quantity) == Outcome::Accepted {
            StoreModel {
                itens: self.itens.insert(code, (self.on_hand(code) + quantity) as i32),
                historico: self.historico.push(
                    Self::event(Operacao::Compra, code, quantity, timestamp),
                ),
            }
        } else {
            self
        }
    }

    /// How a sale ends: the code must be there and hold at least the quantity.
    pub open spec fn sell_outcome(self, code: Seq<char>, quantity: i32) -> Outcome {
        if !self.itens.dom().contains(code) {
            Outcome::NotFound
        } else if self.itens[code] < quantity {
            Outcome::Insufficient
        } else if self.itens[code] - quantity > i32::MAX {
            Outcome::OutOfRange
        } else {
            Outcome::Accepted
        }
    }

    /// The store after a sale: the quantity is taken from what is on hand, or
    /// nothing changes when the sale is not accepted.
    pub open spec fn sell(self, code: Seq<char>, quantity: i32, timestamp: Seq<char>) -> StoreModel {
        if self.sell_outcome(code, quantity) == Outcome::Accepted {
            StoreModel {
                itens: self.itens.insert(code, (self.itens[code] - quantity) as i32),
                historico: self.historico.push(
                    Self::event(Operacao::Venda, code, quantity, timestamp),
                ),
            }
        } else {
            self
        }
    }

    /// The events that concern `code`, oldest first.
    pub open spec fn history_for(self, code: Seq<char>) -> Seq<HistoricoView> {
        self.historico.filter(of_code(code))
    }

    /// The codes that the log speaks of.
    pub open spec fn logged_codes(self) -> Map<Seq<char>, ()> {
        codes_of(self.historico)
    }

    /// No code has a negative quantity.
    pub open spec fn non_negative(self) -> bool {
        forall|code: Seq<char>| #[trigger] self.itens.dom().contains(code) ==> self.itens[code] >= 0
    }
}

/// A request to the store: a registration, a purchase or a sale of a quantity
/// of a code, made at some time.
pub struct Request {
    pub kind: Operacao,
    pub code: Seq<char>,
    pub quantity: i32,
    pub timestamp: Seq<char>,
}

impl StoreModel {
    /// How a request ends. A registration is always accepted.
    pub open spec fn outcome(self, r: Request) -> Outcome {
        match r.kind {
            Operacao::Cadastro => Outcome::Accepted,
            Operacao::Compra => self.buy_outcome(r.code, r.quantity),
            Operacao::Venda => self.sell_outcome(r.code, r.quantity),
        }
    }

    /// The store after a request.
    pub open spec fn apply(self, r: Request) -> StoreModel {
        match r.kind {
            Operacao::Cadastro => self.register(r.code, r.quantity, r.timestamp),
            Operacao::Compra => self.buy(r.code, r.quantity, r.timestamp),
            Operacao::Venda => self.sell(r.code, r.quantity, r.timestamp),
        }
    }

    /// The store after a run of requests, made one after the other.
    pub open spec fn run(self, rs: Seq<Request>) -> StoreModel
        decreases rs.len(),
    {
        if rs.len() == 0 {
            self
        } else {
            self.run(rs.drop_last()).apply(rs.last())
        }
    }

    /// How many requests of a run are accepted.
    pub open spec fn accepted(self, rs: Seq<Request>) -> nat
        decreases rs.len(),
    {
        if rs.len() == 0 {
            0
        } else {
            let before = self.accepted(rs.drop_last());
            if self.run(rs.drop_last()).outcome(rs.last()) == Outcome::Accepted {
                before + 1
            } else {
                before
            }
        }
    }

    /// Every code of the log is a code of the store.
    pub open spec fn logged_codes_are_items(self) -> bool {
        forall|i: int|
            0 <= i < self.historico.len() ==> self.itens.dom().contains(
                (#[trigger] self.historico[i]).codigo,
            )
    }
}

/// A request that is accepted logs exactly one event, which says what was
/// asked; one that is not accepted changes nothing.
pub proof fn lemma_one_event_per_accepted_request(s: StoreModel, r: Request)
    ensures
        s.outcome(r) == Outcome::Accepted ==> s.apply(r).historico == s.historico.push(
            StoreModel::event(r.kind, r.code, r.quantity, r.timestamp),
        ),
        s.outcome(r) != Outcome::Accepted ==> s.apply(r) == s,
{
}

/// After any run of requests the log has grown by as many events as requests
/// were accepted, and what was logged before is still there, unchanged.
pub proof fn lemma_log_counts_accepted(s: StoreModel, rs: Seq<Request>)
    ensures
        s.run(rs).historico.len() == s.historico.len() + s.accepted(rs),
        s.run(rs).historico.take(s.historico.len() as int) == s.historico,
    decreases rs.len(),
{
    if rs.len() == 0 {
        assert(s.historico.take(s.historico.len() as int) =~= s.historico);
    } else {
        lemma_log_counts_accepted(s, rs.drop_last());
        let before = s.run(rs.drop_last());
        lemma_one_event_per_accepted_request(before, rs.last());
        assert(s.run(rs).historico.take(s.historico.len() as int) =~= before.historico.take(
            s.historico.len() as int,
        ));
    }
}

/// No run of requests takes a code out of the store.
pub proof fn lemma_items_are_never_deleted(s: StoreModel, rs: Seq<Request>, code: Seq<char>)
    requires
        s.itens.dom().contains(code),
    ensures
        s.run(rs).itens.dom().contains(code),
    decreases rs.len(),
{
    if rs.len() > 0 {
        lemma_items_are_never_deleted(s, rs.drop_last(), code);
    }
}

/// Where no registration and no purchase asks for a negative quantity, no
/// quantity on hand ever becomes negative, whatever is sold.
pub proof fn lemma_quantities_stay_non_negative(s: StoreModel, rs: Seq<Request>)
    requires
        s.non_negative(),
        forall|i: int|
            0 <= i < rs.len() && (#[trigger] rs[i]).kind != Operacao::Venda ==> rs[i].quantity >= 0,
    ensures
        s.run(rs).non_negative(),
    decreases rs.len(),
{
    if rs.len() > 0 {
        let head = rs.drop_last();
        assert forall|i: int| 0 <= i < head.len() && (#[trigger] head[i]).kind
            != Operacao::Venda implies head[i].quantity >= 0 by {
            assert(head[i] == rs[i]);
        }
        lemma_quantities_stay_non_negative(s, head);
        assert(rs.last() == rs[rs.len() - 1]);
    }
}

/// Where every logged code is in the store, that is so after any run of
/// requests.
pub proof fn lemma_logged_codes_stay_items(s: StoreModel, rs: Seq<Request>)
    requires
        s.logged_codes_are_items(),
    ensures
        s.run(rs).logged_codes_are_items(),
    decreases rs.len(),
{
    if rs.len() > 0 {
        lemma_logged_codes_stay_items(s, rs.drop_last());
        let before = s.run(rs.drop_last());
        let after = s.run(rs);
        assert forall|i: int| 0 <= i < after.historico.len() implies after.itens.dom().contains(
            (#[trigger] after.historico[i]).codigo,
        ) by {
            if i < before.historico.len() {
                assert(after.historico[i] == before.historico[i]);
            }
        }
    }
}

/// A sale of more than is on hand is turned down as such, and leaves the items
/// and the log as they were.
pub proof fn lemma_sell_beyond_stock(s: StoreModel, code: Seq<char>, quantity: i32, timestamp: Seq<char>)
    requires
        s.itens.dom().contains(code),
        quantity > s.itens[code],
    ensures
        s.sell_outcome(code, quantity) == Outcome::Insufficient,
        s.sell(code, quantity, timestamp) == s,
{
}

/// A purchase of a code that the store does not hold puts the code there with
/// exactly the quantity bought, leaves every other code alone and logs one
/// purchase.
pub proof fn lemma_buy_unknown_code(s: StoreModel, code: Seq<char>, quantity: i32, timestamp: Seq<char>)
    requires
        !s.itens.dom().contains(code),
    ensures
        s.buy_outcome(code, quantity) == Outcome::Accepted,
        s.buy(code, quantity, timestamp).itens == s.itens.insert(code, quantity),
        s.buy(code, quantity, timestamp).historico == s.historico.push(
            StoreModel::event(Operacao::Compra, code, quantity, timestamp),
        ),
{
}

/// Filtering a sequence with one more element at its end.
pub proof fn lemma_filter_push<A>(s: Seq<A>, x: A, pred: spec_fn(A) -> bool)
    ensures
        s.push(x).filter(pred) == if pred(x) {
            s.filter(pred).push(x)
        } else {
            s.filter(pred)
        },
{
    reveal(Seq::filter);
    assert(s.push(x).drop_last() =~= s);
}

/// The inventory.
pub struct Store {
    itens: SortedMap<i32>,
    historico: Vec<Historico>,
}

impl View for Store {
    type V = StoreModel;

    closed spec fn view(&self) -> StoreModel {
        StoreModel { itens: self.itens@, historico: self.historico.deep_view() }
    }
}

impl Store {
    /// The items are kept in order of their codes.
    pub closed spec fn wf(&self) -> bool {
        self.itens.wf()
    }

    /// What holds of every store: its items can be listed, and the list and the
    /// log are no longer than a machine can hold.
    pub proof fn lemma_wf(&self)
        requires
            self.wf(),
        ensures
            lists(listing_of(self@.itens), self@.itens),
            listing_of(self@.itens).len() <= usize::MAX,
            self@.historico.len() <= usize::MAX,
            self@.itens.dom().finite(),
            self@.itens.dom().len() == listing_of(self@.itens).len(),
    {
        self.itens.lemma_listing();
        assert(self.historico.deep_view().len() == self.historico.len());
    }

    /// The store with no item and no event.
    pub fn new() -> (s: Store)
        ensures
            s.wf(),
            s@.itens == Map::<Seq<char>, i32>::empty(),
            s@.historico == Seq::<HistoricoView>::empty(),
    {
        let s = Store { itens: SortedMap::new(), historico: Vec::new() };
        assert(s.historico.deep_view() =~= Seq::<HistoricoView>::empty());
        s
    }

    /// The store that holds the given items and the given log. Of two items with
    /// one code the later one counts.
    pub fn from_records(itens: Vec<Relogio>, historico: Vec<Historico>) -> (s: Store)
        ensures
            s.wf(),
            s@.itens == records_map(itens.deep_view()),
            s@.historico == historico.deep_view(),
    {
        let mut map: SortedMap<i32> = SortedMap::new();
        let mut i: usize = 0;
        while i < itens.len()
            invariant
                i <= itens.len(),
                map.wf(),
                map@ == records_map(itens.deep_view().take(i as int)),
            decreases itens.len() - i,
        {
            proof {
                let d = itens.deep_view();
                assert(d.take(i + 1).drop_last() =~= d.take(i as int));
                assert(d.take(i + 1).last() == itens[i as int]@);
            }
            map.insert(itens[i].codigo.clone(), itens[i].quantidade);
            i += 1;
        }
        assert(itens.deep_view().take(i as int) =~= itens.deep_view());
        Store { itens: map, historico }
    }

    /// Appends one event to the log.
    fn log(&mut self, operacao: Operacao, codigo: String, quantidade: i32, timestamp: String)
        requires
            old(self).wf(),
        ensures
            final(self).wf(),
            final(self)@.itens == old(self)@.itens,
            final(self)@.historico == old(self)@.historico.push(
                StoreModel::event(operacao, codigo@, quantidade, timestamp@),
            ),
    {
        let entry = Historico { codigo, quantidade, operacao, timestamp };
        self.historico.push(entry);
        assert(self.historico.deep_view() =~= old(self).historico.deep_view().push(entry@));
    }

    /// Registers `codigo` with the quantity `quantidade`, in place of whatever
    /// quantity it had, and logs the registration.
    pub fn register(&mut self, codigo: String, quantidade: i32, timestamp: String)
        requires
            old(self).wf(),
        ensures
            final(self).wf(),
            final(self)@ == old(self)@.register(codigo@, quantidade, timestamp@),
    {
        self.itens.insert(codigo.clone(), quantidade);
        self.log(Operacao::Cadastro, codigo, quantidade, timestamp);
    }

    /// Adds `quantidade` to what is on hand of `codigo`, which from now on is in
    /// the store, and logs the purchase. Nothing changes when the sum is out of
    /// range.
    pub fn buy(&mut self, codigo: String, quantidade: i32, timestamp: String) -> (r: Outcome)
        requires
            old(self).wf(),
        ensures
            final(self).wf(),
            r == old(self)@.buy_outcome(codigo@, quantidade),
            final(self)@ == old(self)@.buy(codigo@, quantidade, timestamp@),
    {
        let on_hand = match self.itens.get(codigo.as_str()) {
            Some(q) => q,
            None => 0,
        };
        match on_hand.checked_add(quantidade) {
            Some(sum) => {
                self.itens.insert(codigo.clone(), sum);
                self.log(Operacao::Compra, codigo, quantidade, timestamp);
                Outcome::Accepted
            },
            None => Outcome::OutOfRange,
        }
    }

    /// Takes `quantidade` from what is on hand of `codigo` and logs the sale.
    /// Nothing changes when the code is not in the store or holds less.
    pub fn sell(&mut self, codigo: String, quantidade: i32, timestamp: String) -> (r: Outcome)
        requires
            old(self).wf(),
        ensures
            final(self).wf(),
            r == old(self)@.sell_outcome(codigo@, quantidade),
            final(self)@ == old(self)@.sell(codigo@, quantidade, timestamp@),
    {
        match self.itens.get(codigo.as_str()) {
            None => Outcome::NotFound,
            Some(on_hand) => {
                if on_hand < quantidade {
                    Outcome::Insufficient
                } else {
                    match on_hand.checked_sub(quantidade) {
                        Some(rest) => {
                            self.itens.insert(codigo.clone(), rest);
                            self.log(Operacao::Venda, codigo, quantidade, timestamp);
                            Outcome::Accepted
                        },
                        None => Outcome::OutOfRange,
                    }
                }
            },
        }
    }

    /// The quantity on hand of `codigo`, if the store holds it.
    pub fn quantity_of(&self, codigo: &str) -> (r: Option<i32>)
        requires
            self.wf(),
        ensures
            r == if self@.itens.dom().contains(codigo@) {
                Some(self@.itens[codigo@])
            } else {
                None
            },
    {
        self.itens.get(codigo)
    }

    /// The number of codes in the store.
    pub fn len(&self) -> (n: usize)
        requires
            self.wf(),
        ensures
            self@.itens.dom().finite(),
            n == self@.itens.dom().len(),
    {
        proof {
            self.itens.lemma_listing();
        }
        self.itens.len()
    }

    /// The codes that the log speaks of.
    pub fn logged_codes(&self) -> (m: SortedMap<()>)
        ensures
            m.wf(),
            m@ == self@.logged_codes(),
    {
        let mut m: SortedMap<()> = SortedMap::new();
        let ghost all = self.historico.deep_view();
        let mut i: usize = 0;
        assert(m@ =~= codes_of(all.take(0)));
        while i < self.historico.len()
            invariant
                i <= self.historico.len(),
                all == self.historico.deep_view(),
                m.wf(),
                m@ == codes_of(all.take(i as int)),
            decreases self.historico.len() - i,
        {
            proof {
                let head = all.take(i as int);
                let more = all.take(i + 1);
                let e = all[i as int];
                assert(more =~= head.push(e));
                assert forall|c: Seq<char>| speaks_of(more, c) <==> (speaks_of(head, c) || e.codigo
                    == c) by {
                    if speaks_of(more, c) {
                        let k = choose|k: int| 0 <= k < more.len() && (#[trigger] more[k]).codigo == c;
                        if k < head.len() {
                            assert(head[k] == more[k]);
                        }
                    }
                    if speaks_of(head, c) {
                        let k = choose|k: int| 0 <= k < head.len() && (#[trigger] head[k]).codigo == c;
                        assert(more[k] == head[k]);
                    }
                    if e.codigo == c {
                        assert(more[i as int] == e);
                    }
                }
                assert(codes_of(more) =~= codes_of(head).insert(e.codigo, ()));
            }
            m.insert(self.historico[i].codigo.clone(), ());
            i += 1;
        }
        assert(all.take(i as int) =~= all);
        m
    }

    /// The items ranked against `query`: the nearest code first and, of two
    /// equally near, the lesser code.
    pub fn search(&self, query: &str) -> (r: Vec<(String, i32, usize)>)
        requires
            self.wf(),
        ensures
            is_ranking(r.deep_view(), self@.itens, query@),
            r.deep_view() == ranking_of(self@.itens, query@),
    {
        let r = rank(&self.itens, query);
        assert(r.deep_view() =~= ranked_view(r@));
        r
    }

    /// The codes of the log ranked against `query`: the nearest code first and,
    /// of two equally near, the lesser code.
    pub fn suggest(&self, query: &str) -> (r: Vec<(String, usize)>)
        ensures
            r.deep_view() == without_values(ranking_of(self@.logged_codes(), query@)),
    {
        let codes = self.logged_codes();
        let ranked = rank(&codes, query);
        let mut r: Vec<(String, usize)> = Vec::new();
        let mut i: usize = 0;
        while i < ranked.len()
            invariant
                i <= ranked.len(),
                r.len() == i,
                forall|k: int|
                    0 <= k < i ==> (#[trigger] r.deep_view()[k]) == (
                        ranked_view(ranked@)[k].0,
                        ranked_view(ranked@)[k].2,
                    ),
            decreases ranked.len() - i,
        {
            let ghost before = r.deep_view();
            let row = (ranked[i].0.clone(), ranked[i].2);
            r.push(row);
            assert(r.deep_view() =~= before.push(row.deep_view()));
            i += 1;
        }
        assert(r.deep_view() =~= without_values(ranked_view(ranked@)));
        r
    }

    /// All items, in ascending order of their codes.
    pub fn lookup_all(&self) -> (r: Vec<Relogio>)
        requires
            self.wf(),
        ensures
            lists(r.deep_view(), self@.itens),
            r.deep_view() == listing_of(self@.itens),
    {
        let mut r: Vec<Relogio> = Vec::new();
        let n = self.itens.len();
        let mut i: usize = 0;
        while i < n
            invariant
                i <= n,
                n == self.itens.listing().len(),
                r.deep_view() == self.itens.listing().take(i as int),
            decreases n - i,
        {
            let item = Relogio {
                codigo: self.itens.key_at(i).clone(),
                quantidade: self.itens.value_at(i),
            };
            r.push(item);
            assert(r.deep_view() =~= self.itens.listing().take(i as int).push(item@));
            assert(self.itens.listing().take(i + 1) =~= self.itens.listing().take(i as int).push(
                self.itens.listing()[i as int],
            ));
            i += 1;
        }
        proof {
            assert(self.itens.listing().take(n as int) =~= self.itens.listing());
            self.itens.lemma_listing();
        }
        r
    }

    /// The number of events in the log.
    pub fn history_len(&self) -> (n: usize)
        ensures
            n == self@.historico.len(),
    {
        self.historico.len()
    }

    /// The log, oldest event first.
    pub fn history(&self) -> (r: &Vec<Historico>)
        ensures
            r.deep_view() == self@.historico,
    {
        &self.historico
    }

    /// The events that concern `codigo`, oldest first.
    pub fn history_for(&self, codigo: &str) -> (r: Vec<Historico>)
        ensures
            r.deep_view() == self@.history_for(codigo@),
    {
        let mut r: Vec<Historico> = Vec::new();
        let mut i: usize = 0;
        let ghost all = self.historico.deep_view();
        proof {
            reveal(Seq::filter);
            assert(all.take(0).filter(of_code(codigo@)) =~= Seq::<HistoricoView>::empty());
            assert(r.deep_view() =~= Seq::<HistoricoView>::empty());
        }
        while i < self.historico.len()
            invariant
                i <= self.historico.len(),
                all == self.historico.deep_view(),
                r.deep_view() == all.take(i as int).filter(of_code(codigo@)),
            decreases self.historico.len() - i,
        {
            proof {
                assert(all.take(i + 1) =~= all.take(i as int).push(all[i as int]));
                lemma_filter_push(all.take(i as int), all[i as int], of_code(codigo@));
            }
            if same(self.historico[i].codigo.as_str(), codigo) {
                let ghost before = r.deep_view();
                let entry = self.historico[i].clone();
                r.push(entry);
                assert(r.deep_view() =~= before.push(entry@));
            }
            i += 1;
        }
        assert(all.take(i as int) =~= all);
        r
    }
}

} // verus!
