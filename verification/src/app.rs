//! The application: the store, what is on the screen, and what each key does.

use vstd::prelude::*;
use crate::clock::now_timestamp;
use crate::cursor::Cursor;
use crate::history::{
    chart_buckets, chart_days, filter_by_tab, in_tab, short_date, short_date_string, HistoricoTab,
};
use crate::messages;
use crate::parse::{parse_command, trim, ParseError};
use crate::rank::is_ranking;
use crate::sorted_map::{listing_of, lists};
use crate::state::{AppView, Efeito, Escolha, Modo, Tecla, VIS_HEIGHT};
use crate::store::{
    lemma_filter_push, of_code, records_map, Historico, HistoricoView, Operacao, Outcome, Relogio,
    Store, StoreModel,
};

verus! {

/// The characters of a string that may not be there.
pub open spec fn text_of(s: Option<String>) -> Option<Seq<char>> {
    match s {
        Some(s) => Some(s@),
        None => None,
    }
}

/// The application.
pub struct App {
    store: Store,
    modo: Modo,
    editing: bool,
    input: String,
    mensagens: Vec<String>,
    filtro: Option<String>,
    historico_tab: HistoricoTab,
    estoques_list: Vec<Relogio>,
    estoques: Cursor,
    cadastro_list: Vec<Relogio>,
    cadastro: Cursor,
    buscar_results: Vec<(String, i32, usize)>,
    buscar: Cursor,
    historico: Cursor,
    historico_search_results: Vec<(String, usize)>,
    historico_search_selected: usize,
    chosen_relogio: Option<String>,
    chosen_operation: Option<Escolha>,
}

impl View for App {
    type V = AppView;

    closed spec fn view(&self) -> AppView {
        AppView {
            store: self.store@,
            modo: self.modo,
            editing: self.editing,
            input: self.input@,
            mensagens: self.mensagens.deep_view(),
            filtro: text_of(self.filtro),
            historico_tab: self.historico_tab,
            estoques: self.estoques,
            cadastro: self.cadastro,
            buscar: self.buscar,
            historico: self.historico,
            buscar_results: self.buscar_results.deep_view(),
            historico_search_results: self.historico_search_results.deep_view(),
            historico_search_selected: self.historico_search_selected,
            chosen_relogio: text_of(self.chosen_relogio),
            chosen_operation: self.chosen_operation,
        }
    }
}

/// One more event in the log adds at most that event to the rows of the
/// history, at their end.
proof fn lemma_rows_grow(v: AppView, store: StoreModel, e: HistoricoView)
    requires
        store.historico == v.store.historico.push(e),
    ensures
        ({
            let w = AppView { store, ..v };
            w.rows() == v.rows() || w.rows() == v.rows().push(e)
        }),
{
    let w = AppView { store, ..v };
    match v.filtro {
        Some(code) => {
            lemma_filter_push(v.store.historico, e, of_code(code));
        },
        None => {},
    }
    lemma_filter_push(v.filtered_log(), e, in_tab(v.historico_tab));
}

/// Of the events of one code no more are of a kind than of all events.
proof fn lemma_filtered_rows_fewer(log: Seq<HistoricoView>, code: Seq<char>, tab: HistoricoTab)
    ensures
        log.filter(of_code(code)).filter(in_tab(tab)).len() <= log.filter(in_tab(tab)).len(),
    decreases log.len(),
{
    reveal(Seq::filter);
    if log.len() > 0 {
        let head = log.drop_last();
        let e = log.last();
        assert(log =~= head.push(e));
        lemma_filtered_rows_fewer(head, code, tab);
        lemma_filter_push(head, e, of_code(code));
        lemma_filter_push(head, e, in_tab(tab));
        lemma_filter_push(head.filter(of_code(code)), e, in_tab(tab));
    }
}

/// Without its filter the history has no fewer rows.
proof fn lemma_unfiltered_rows(v: AppView)
    ensures
        v.rows().len() <= (AppView { filtro: None, ..v }).rows().len(),
{
    match v.filtro {
        Some(code) => {
            lemma_filtered_rows_fewer(v.store.historico, code, v.historico_tab);
        },
        None => {},
    }
}

impl App {
    /// The lists on the screen are those of the store, and every cursor
    /// selects a row of its list, within its window.
    pub closed spec fn wf(&self) -> bool {
        &&& self.store.wf()
        &&& self.estoques_list.deep_view() == listing_of(self.store@.itens)
        &&& self.cadastro_list.deep_view() == listing_of(self.store@.itens)
        &&& self@.wf()
    }

    /// What holds of the state of every application.
    pub proof fn lemma_wf(&self)
        requires
            self.wf(),
        ensures
            self@.wf(),
            lists(self@.items(), self@.store.itens),
            self@.items().len() <= usize::MAX,
            self@.rows().len() <= usize::MAX,
            self@.buscar_results.len() <= usize::MAX,
            self@.historico_search_results.len() <= usize::MAX,
    {
        self.store.lemma_wf();
        assert(self.buscar_results.deep_view().len() == self.buscar_results.len());
        assert(self.historico_search_results.deep_view().len()
            == self.historico_search_results.len());
        self@.filtered_log().lemma_filter_len(in_tab(self@.historico_tab));
        match self@.filtro {
            Some(code) => {
                self@.store.historico.lemma_filter_len(of_code(code));
            },
            None => {},
        }
    }

    /// Appends a line to the messages.
    fn say(&mut self, line: String)
        ensures
            final(self)@ == old(self)@.say(line@),
            final(self).wf() == old(self).wf(),
            final(self).store == old(self).store,
    {
        let ghost before = self.mensagens.deep_view();
        self.mensagens.push(line);
        assert(self.mensagens.deep_view() =~= before.push(line@));
    }

    /// The application over the given items and the given log, as read from
    /// where they are kept: in the inventory, with a greeting as its only
    /// message. Of two items with one code the later one counts.
    pub fn new(relogios: Vec<Relogio>, historico: Vec<Historico>) -> (app: App)
        ensures
            app.wf(),
            app@ == AppView::initial(
                StoreModel {
                    itens: records_map(relogios.deep_view()),
                    historico: historico.deep_view(),
                },
            ),
    {
        let store = Store::from_records(relogios, historico);
        let estoques_list = store.lookup_all();
        let cadastro_list = store.lookup_all();
        let mut mensagens: Vec<String> = Vec::new();
        mensagens.push(messages::welcome_line());
        let app = App {
            store,
            modo: Modo::Estoques,
            editing: false,
            input: String::new(),
            mensagens,
            filtro: None,
            historico_tab: HistoricoTab::Todos,
            estoques_list,
            estoques: Cursor::new(),
            cadastro_list,
            cadastro: Cursor::new(),
            buscar_results: Vec::new(),
            buscar: Cursor::new(),
            historico: Cursor::new(),
            historico_search_results: Vec::new(),
            historico_search_selected: 0,
            chosen_relogio: None,
            chosen_operation: None,
        };
        proof {
            assert(app.mensagens.deep_view() =~= seq![messages::welcome()]);
            assert(app.buscar_results.deep_view() =~= Seq::empty());
            assert(app.historico_search_results.deep_view() =~= Seq::empty());
        }
        app
    }

    /// Brings the list of the inventory up to date with the store, and its
    /// cursor back into the list.
    fn refresh_estoques(&mut self)
        requires
            old(self).store.wf(),
        ensures
            final(self)@ == old(self)@.estoques_refreshed(),
            final(self).store == old(self).store,
            final(self).estoques_list.deep_view() == listing_of(final(self).store@.itens),
            final(self).cadastro_list == old(self).cadastro_list,
    {
        self.estoques_list = self.store.lookup_all();
        self.estoques.reclamp(self.estoques_list.len());
    }

    /// Brings the registration list up to date with the store, and its cursor
    /// back into the list.
    fn refresh_cadastro(&mut self)
        requires
            old(self).store.wf(),
        ensures
            final(self)@ == old(self)@.cadastro_refreshed(),
            final(self).store == old(self).store,
            final(self).cadastro_list.deep_view() == listing_of(final(self).store@.itens),
            final(self).estoques_list == old(self).estoques_list,
    {
        self.cadastro_list = self.store.lookup_all();
        self.cadastro.reclamp(self.cadastro_list.len());
    }

    /// Brings the list of the inventory up to date with the store, and its
    /// cursor back into the list.
    pub fn atualiza_estoques_list(&mut self)
        requires
            old(self).wf(),
        ensures
            final(self).wf(),
            final(self)@ == old(self)@.estoques_refreshed(),
    {
        proof {
            self.lemma_wf();
        }
        self.refresh_estoques();
    }

    /// Brings the registration list up to date with the store, and its cursor
    /// back into the list.
    pub fn atualiza_cadastro_list(&mut self)
        requires
            old(self).wf(),
        ensures
            final(self).wf(),
            final(self)@ == old(self)@.cadastro_refreshed(),
    {
        proof {
            self.lemma_wf();
        }
        self.refresh_cadastro();
    }

    /// The items ranked against `query`: the nearest code first and, of two
    /// equally near, the lesser code. Each row holds the code, the quantity on
    /// hand and the distance.
    pub fn busca_relogios(&self, query: &str) -> (r: Vec<(String, i32, usize)>)
        requires
            self.wf(),
        ensures
            r.deep_view() == self@.search(query@),
            is_ranking(r.deep_view(), self@.store.itens, query@),
    {
        self.store.search(query)
    }

    /// Ranks the items anew against the input, and brings the cursor of the
    /// search back into the ranking.
    pub fn atualizar_busca_results(&mut self)
        requires
            old(self).wf(),
        ensures
            final(self).wf(),
            final(self)@ == old(self)@.search_ranked(),
    {
        proof {
            self.lemma_wf();
        }
        let results = self.store.search(self.input.as_str());
        self.buscar_results = results;
        self.buscar.reclamp(self.buscar_results.len());
    }

    /// Ranks the codes of the log anew against the input, without the blanks
    /// around it, and brings the selected suggestion back into the ranking.
    pub fn atualizar_historico_search_results(&mut self)
        requires
            old(self).wf(),
        ensures
            final(self).wf(),
            final(self)@ == old(self)@.suggestions_ranked(),
    {
        let query = trim(self.input.as_str());
        let results = self.store.suggest(query.as_str());
        self.historico_search_results = results;
        let n = self.historico_search_results.len();
        if n == 0 {
            self.historico_search_selected = 0;
        } else if self.historico_search_selected >= n {
            self.historico_search_selected = n - 1;
        }
    }

    /// Brings both lists up to date after the store has changed, and restores
    /// what holds of every application.
    fn refresh(&mut self, Ghost(before): Ghost<AppView>, Ghost(e): Ghost<Option<HistoricoView>>)
        requires
            old(self).store.wf(),
            before.wf(),
            old(self)@ == (AppView { store: old(self)@.store, mensagens: old(self)@.mensagens, ..before }),
            match e {
                Some(e) => old(self)@.store.historico == before.store.historico.push(e),
                None => old(self)@.store.historico == before.store.historico,
            },
        ensures
            final(self).wf(),
            final(self)@ == old(self)@.estoques_refreshed().cadastro_refreshed(),
    {
        proof {
            match e {
                Some(e) => {
                    lemma_rows_grow(before, old(self)@.store, e);
                },
                None => {
                    assert(old(self)@.rows() == before.rows());
                },
            }
        }
        self.refresh_estoques();
        self.refresh_cadastro();
    }

    /// Registers `codigo` with the quantity `qtd` at the time `timestamp`, in
    /// place of whatever quantity the code had, and says so in the messages.
    pub fn cadastrar_relogio_em(&mut self, codigo: String, qtd: i32, timestamp: String)
        requires
            old(self).wf(),
        ensures
            final(self).wf(),
            final(self)@ == old(self)@.registered(codigo@, qtd, timestamp@),
    {
        let ghost before = self@;
        let line = messages::registered_line(codigo.as_str(), qtd);
        self.store.register(codigo, qtd, timestamp);
        self.say(line);
        self.refresh(
            Ghost(before),
            Ghost(Some(StoreModel::event(Operacao::Cadastro, codigo@, qtd, timestamp@))),
        );
    }

    /// Adds `qtd` to what is on hand of `codigo` at the time `timestamp`, and
    /// says in the messages what came of it. The purchase is turned down when
    /// the sum does not fit 32 bits.
    pub fn comprar_relogio_em(&mut self, codigo: String, qtd: i32, timestamp: String) -> (r: Outcome)
        requires
            old(self).wf(),
        ensures
            final(self).wf(),
            r == old(self)@.store.buy_outcome(codigo@, qtd),
            final(self)@ == old(self)@.bought(codigo@, qtd, timestamp@),
    {
        let ghost before = self@;
        let ghost code = codigo@;
        let ghost ts = timestamp@;
        let name = codigo.clone();
        let r = self.store.buy(codigo, qtd, timestamp);
        let line = match r {
            Outcome::Accepted => messages::bought_line(name.as_str(), qtd),
            _ => messages::bad_quantity_line(),
        };
        self.say(line);
        self.refresh(
            Ghost(before),
            Ghost(
                if r == Outcome::Accepted {
                    Some(StoreModel::event(Operacao::Compra, code, qtd, ts))
                } else {
                    None
                },
            ),
        );
        r
    }

    /// Takes `qtd` from what is on hand of `codigo` at the time `timestamp`,
    /// and says in the messages what came of it. The sale is turned down when
    /// the code is not in the store or holds less.
    pub fn vender_relogio_em(&mut self, codigo: String, qtd: i32, timestamp: String) -> (r: Outcome)
        requires
            old(self).wf(),
        ensures
            final(self).wf(),
            r == old(self)@.store.sell_outcome(codigo@, qtd),
            final(self)@ == old(self)@.sold(codigo@, qtd, timestamp@),
    {
        let ghost before = self@;
        let ghost code = codigo@;
        let ghost ts = timestamp@;
        let name = codigo.clone();
        let r = self.store.sell(codigo, qtd, timestamp);
        let line = match r {
            Outcome::Accepted => messages::sold_line(name.as_str(), qtd),
            Outcome::Insufficient => messages::insufficient_line(),
            Outcome::NotFound => messages::not_found_line(),
            Outcome::OutOfRange => messages::bad_quantity_line(),
        };
        self.say(line);
        self.refresh(
            Ghost(before),
            Ghost(
                if r == Outcome::Accepted {
                    Some(StoreModel::event(Operacao::Venda, code, qtd, ts))
                } else {
                    None
                },
            ),
        );
        r
    }

    /// Registers `codigo` with the quantity `qtd` now.
    pub fn cadastrar_relogio(&mut self, codigo: String, qtd: i32)
        requires
            old(self).wf(),
        ensures
            final(self).wf(),
            exists|timestamp: Seq<char>| final(self)@ == old(self)@.registered(codigo@, qtd, timestamp),
    {
        let timestamp = now_timestamp();
        self.cadastrar_relogio_em(codigo, qtd, timestamp);
    }

    /// Adds `qtd` to what is on hand of `codigo` now.
    pub fn comprar_relogio(&mut self, codigo: String, qtd: i32) -> (r: Outcome)
        requires
            old(self).wf(),
        ensures
            final(self).wf(),
            r == old(self)@.store.buy_outcome(codigo@, qtd),
            exists|timestamp: Seq<char>| final(self)@ == old(self)@.bought(codigo@, qtd, timestamp),
    {
        let timestamp = now_timestamp();
        self.comprar_relogio_em(codigo, qtd, timestamp)
    }

    /// Takes `qtd` from what is on hand of `codigo` now.
    pub fn vender_relogio(&mut self, codigo: String, qtd: i32) -> (r: Outcome)
        requires
            old(self).wf(),
        ensures
            final(self).wf(),
            r == old(self)@.store.sell_outcome(codigo@, qtd),
            exists|timestamp: Seq<char>| final(self)@ == old(self)@.sold(codigo@, qtd, timestamp),
    {
        let timestamp = now_timestamp();
        self.vender_relogio_em(codigo, qtd, timestamp)
    }

    /// The rows of the history view: the events that the filter lets through
    /// and the tab shows, oldest first.
    pub fn get_historico_atual_vec(&self) -> (r: Vec<Historico>)
        ensures
            r.deep_view() == self@.rows(),
    {
        match &self.filtro {
            Some(code) => {
                let base = self.store.history_for(code.as_str());
                filter_by_tab(&base, self.historico_tab)
            },
            None => filter_by_tab(self.store.history(), self.historico_tab),
        }
    }

    /// The events that concern `codigo`, oldest first.
    pub fn get_historico_por_codigo(&self, codigo: &str) -> (r: Vec<Historico>)
        ensures
            r.deep_view() == self@.store.history_for(codigo@),
    {
        self.store.history_for(codigo)
    }

    /// Goes to the view `modo` to type into an empty input, and takes the
    /// filter from the history.
    pub fn entra_modo_insercao(&mut self, modo: Modo)
        requires
            old(self).wf(),
        ensures
            final(self).wf(),
            final(self)@ == old(self)@.entered(modo),
    {
        proof {
            lemma_unfiltered_rows(self@);
        }
        self.modo = modo;
        self.input = String::new();
        self.editing = true;
        self.filtro = None;
    }

    /// Goes back to the inventory, with the input empty, and takes the filter
    /// from the history.
    pub fn sai_modo_insercao(&mut self)
        requires
            old(self).wf(),
        ensures
            final(self).wf(),
            final(self)@ == old(self)@.left(),
    {
        proof {
            lemma_unfiltered_rows(self@);
        }
        self.modo = Modo::Estoques;
        self.input = String::new();
        self.editing = false;
        self.filtro = None;
    }

    /// The short form of a date, day and month, for the labels of the chart.
    pub fn formata_data_ddmm(data: &str) -> (r: String)
        ensures
            r@ == short_date(data@),
    {
        short_date_string(data)
    }

    /// The days of the chart: for each of the last seven days on which the log
    /// holds an event, the date in its short form, the number of sales and the
    /// number of purchases, the earliest day first.
    pub fn agrupamento_por_dia(&self) -> (r: Vec<(String, usize, usize)>)
        ensures
            r.deep_view() == chart_days(self@.store.historico),
            r.len() <= 7,
    {
        chart_buckets(self.store.history())
    }

    /// Selects the row above in the inventory.
    pub fn estoques_select_up(&mut self)
        requires
            old(self).wf(),
        ensures
            final(self).wf(),
            final(self)@ == (AppView { estoques: old(self)@.estoques.up(), ..old(self)@ }),
    {
        self.estoques.move_up();
    }

    /// Selects the row below in the inventory.
    pub fn estoques_select_down(&mut self)
        requires
            old(self).wf(),
        ensures
            final(self).wf(),
            final(self)@ == (AppView {
                estoques: old(self)@.estoques.down(old(self)@.items().len(), VIS_HEIGHT as nat),
                ..old(self)@
            }),
    {
        self.estoques.move_down(self.estoques_list.len(), VIS_HEIGHT);
    }

    /// Selects the row above in the history.
    pub fn historico_select_up(&mut self)
        requires
            old(self).wf(),
        ensures
            final(self).wf(),
            final(self)@ == (AppView { historico: old(self)@.historico.up(), ..old(self)@ }),
    {
        self.historico.move_up();
    }

    /// Selects the row below in the history.
    pub fn historico_select_down(&mut self)
        requires
            old(self).wf(),
        ensures
            final(self).wf(),
            final(self)@ == (AppView {
                historico: old(self)@.historico.down(old(self)@.rows().len(), VIS_HEIGHT as nat),
                ..old(self)@
            }),
    {
        let data = self.get_historico_atual_vec();
        self.historico.move_down(data.len(), VIS_HEIGHT);
    }

    /// Shows the tab to the right, from its top.
    pub fn historico_tab_next(&mut self)
        requires
            old(self).wf(),
        ensures
            final(self).wf(),
            final(self)@ == old(self)@.tab_next(),
    {
        self.historico_tab = self.historico_tab.next();
        self.historico = Cursor::new();
    }

    /// Shows the tab to the left, from its top.
    pub fn historico_tab_prev(&mut self)
        requires
            old(self).wf(),
        ensures
            final(self).wf(),
            final(self)@ == old(self)@.tab_prev(),
    {
        self.historico_tab = self.historico_tab.prev();
        self.historico = Cursor::new();
    }

    /// Selects the row above in the registration list.
    pub fn cadastro_select_up(&mut self)
        requires
            old(self).wf(),
        ensures
            final(self).wf(),
            final(self)@ == (AppView { cadastro: old(self)@.cadastro.up(), ..old(self)@ }),
    {
        self.cadastro.move_up();
    }

    /// Selects the row below in the registration list.
    pub fn cadastro_select_down(&mut self)
        requires
            old(self).wf(),
        ensures
            final(self).wf(),
            final(self)@ == (AppView {
                cadastro: old(self)@.cadastro.down(old(self)@.items().len(), VIS_HEIGHT as nat),
                ..old(self)@
            }),
    {
        self.cadastro.move_down(self.cadastro_list.len(), VIS_HEIGHT);
    }

    /// Selects the row above in the results of the search.
    pub fn buscar_select_up(&mut self)
        requires
            old(self).wf(),
        ensures
            final(self).wf(),
            final(self)@ == (AppView { buscar: old(self)@.buscar.up(), ..old(self)@ }),
    {
        self.buscar.move_up();
    }

    /// Selects the row below in the results of the search.
    pub fn buscar_select_down(&mut self)
        requires
            old(self).wf(),
        ensures
            final(self).wf(),
            final(self)@ == (AppView {
                buscar: old(self)@.buscar.down(old(self)@.buscar_results.len(), VIS_HEIGHT as nat),
                ..old(self)@
            }),
    {
        self.buscar.move_down(self.buscar_results.len(), VIS_HEIGHT);
    }

    /// Selects the suggestion above.
    pub fn historico_search_up(&mut self)
        requires
            old(self).wf(),
        ensures
            final(self).wf(),
            final(self)@ == old(self)@.suggestion_up(),
    {
        if self.historico_search_selected > 0 {
            self.historico_search_selected -= 1;
        }
    }

    /// Selects the suggestion below.
    pub fn historico_search_down(&mut self)
        requires
            old(self).wf(),
        ensures
            final(self).wf(),
            final(self)@ == old(self)@.suggestion_down(),
    {
        let n = self.historico_search_results.len();
        if self.historico_search_selected < n && self.historico_search_selected + 1 < n {
            self.historico_search_selected += 1;
        }
    }

    /// Chooses the code `codigo`, with no operation yet, and says so in the
    /// messages.
    pub fn selecionar_registro(&mut self, codigo: String)
        requires
            old(self).wf(),
        ensures
            final(self).wf(),
            final(self)@ == old(self)@.selected(codigo@),
    {
        let line = messages::row_selected_line(codigo.as_str());
        self.chosen_relogio = Some(codigo);
        self.chosen_operation = None;
        self.say(line);
    }

    /// Gives up the choice of a code, and says so in the messages.
    pub fn cancelar_selecao(&mut self)
        requires
            old(self).wf(),
        ensures
            final(self).wf(),
            final(self)@ == old(self)@.selection_cancelled(),
    {
        self.chosen_relogio = None;
        self.chosen_operation = None;
        self.say(messages::selection_cancelled_line());
    }

    /// Chooses the operation `op` for the chosen code and opens its form, with
    /// the code and a space typed in already. Without a chosen code nothing
    /// changes.
    pub fn escolher_operacao(&mut self, op: Escolha)
        requires
            old(self).wf(),
        ensures
            final(self).wf(),
            final(self)@ == old(self)@.operation_chosen(op),
    {
        let code = match &self.chosen_relogio {
            Some(c) => c.clone(),
            None => {
                return ;
            },
        };
        let line = messages::operation_chosen_line(op.letra(), code.as_str());
        self.chosen_operation = Some(op);
        self.modo = op.modo();
        self.editing = true;
        let mut input = code;
        input.push(' ');
        self.input = input;
        self.say(line);
    }

    /// Filters the history by `codigo`, or takes the filter away when `codigo`
    /// is empty or the log holds nothing of it; says in the messages which,
    /// and shows the history from its top.
    pub fn filtrar_historico(&mut self, codigo: &str)
        requires
            old(self).wf(),
        ensures
            final(self).wf(),
            final(self)@ == old(self)@.filtered(codigo@),
    {
        self.historico = Cursor::new();
        if codigo.is_empty() {
            self.filtro = None;
            self.say(messages::filter_removed_line());
        } else {
            let hist = self.store.history_for(codigo);
            if hist.len() == 0 {
                self.filtro = None;
                self.say(messages::no_history_line());
            } else {
                self.filtro = Some(String::from_str(codigo));
                self.say(messages::history_filtered_line(codigo));
            }
        }
    }

    /// Empties the input.
    fn clear_input(&mut self)
        ensures
            final(self)@ == (AppView { input: Seq::empty(), ..old(self)@ }),
            final(self).wf() == old(self).wf(),
    {
        self.input = String::new();
    }

    /// Forgets the chosen code and operation, without a message.
    fn unselect(&mut self)
        ensures
            final(self)@ == old(self)@.unselected(),
            final(self).wf() == old(self).wf(),
    {
        self.chosen_relogio = None;
        self.chosen_operation = None;
    }

    /// Goes back to the inventory after a form, with nothing chosen.
    fn close_form(&mut self)
        requires
            old(self).wf(),
        ensures
            final(self).wf(),
            final(self)@ == old(self)@.form_closed(),
    {
        self.modo = Modo::Estoques;
        self.editing = false;
        self.input = String::new();
        self.unselect();
    }

    /// Types `c` at the end of the input.
    fn type_char(&mut self, c: char)
        ensures
            final(self)@ == old(self)@.typed(c),
            final(self).wf() == old(self).wf(),
    {
        self.input.push(c);
    }

    /// Rubs out the last character of the input.
    fn erase_char(&mut self)
        ensures
            final(self)@ == old(self)@.erased(),
            final(self).wf() == old(self).wf(),
    {
        self.input.pop();
    }

    /// What the registration form does with a key.
    fn step_cadastro(&mut self, tecla: Tecla, timestamp: String) -> (r: Efeito)
        requires
            old(self).wf(),
        ensures
            final(self).wf(),
            (final(self)@, r) == old(self)@.step_cadastro(tecla, timestamp@),
    {
        match tecla {
            Tecla::Enter => {
                let r = match parse_command(self.input.as_str()) {
                    Ok((codigo, qtd)) => {
                        self.cadastrar_relogio_em(codigo, qtd, timestamp);
                        Efeito::Salvar
                    },
                    Err(ParseError::Formato) => {
                        self.say(messages::bad_format_line());
                        Efeito::Nada
                    },
                    Err(ParseError::Quantidade) => {
                        self.say(messages::bad_quantity_line());
                        Efeito::Nada
                    },
                };
                self.sai_modo_insercao();
                self.unselect();
                r
            },
            Tecla::Esc => {
                self.sai_modo_insercao();
                self.unselect();
                Efeito::Nada
            },
            Tecla::Backspace => {
                self.erase_char();
                Efeito::Nada
            },
            Tecla::Char(c) => {
                self.type_char(c);
                Efeito::Nada
            },
            _ => Efeito::Nada,
        }
    }

    /// What the search does with a key while the query is typed.
    fn step_buscar(&mut self, tecla: Tecla) -> (r: Efeito)
        requires
            old(self).wf(),
        ensures
            final(self).wf(),
            (final(self)@, r) == old(self)@.step_buscar(tecla),
    {
        match tecla {
            Tecla::Enter => {
                self.editing = false;
            },
            Tecla::Esc => {
                self.sai_modo_insercao();
            },
            Tecla::Backspace => {
                self.erase_char();
                self.atualizar_busca_results();
            },
            Tecla::Char(c) => {
                self.type_char(c);
                self.atualizar_busca_results();
            },
            _ => {},
        }
        Efeito::Nada
    }

    /// What the history does with a key while its filter is typed.
    fn step_historico(&mut self, tecla: Tecla) -> (r: Efeito)
        requires
            old(self).wf(),
        ensures
            final(self).wf(),
            (final(self)@, r) == old(self)@.step_historico(tecla),
    {
        match tecla {
            Tecla::Enter => {
                let codigo = if self.historico_search_results.len() > 0 {
                    assert(self.historico_search_results.deep_view()[0]
                        == self.historico_search_results[0].deep_view());
                    self.historico_search_results[0].0.clone()
                } else {
                    trim(self.input.as_str())
                };
                self.filtrar_historico(codigo.as_str());
                self.editing = false;
                self.clear_input();
            },
            Tecla::Esc => {
                self.clear_input();
                self.editing = false;
                proof {
                    reveal_strlit("");
                    assert(""@ =~= Seq::<char>::empty());
                }
                self.filtrar_historico("");
            },
            Tecla::Backspace => {
                self.erase_char();
                self.atualizar_historico_search_results();
            },
            Tecla::Char(c) => {
                self.type_char(c);
                self.atualizar_historico_search_results();
            },
            Tecla::Up => {
                self.historico_search_up();
            },
            Tecla::Down => {
                self.historico_search_down();
            },
            _ => {},
        }
        Efeito::Nada
    }

    /// What the purchase form does with a key.
    fn step_compra(&mut self, tecla: Tecla, timestamp: String) -> (r: Efeito)
        requires
            old(self).wf(),
        ensures
            final(self).wf(),
            (final(self)@, r) == old(self)@.step_compra(tecla, timestamp@),
    {
        match tecla {
            Tecla::Enter => {
                let r = match parse_command(self.input.as_str()) {
                    Ok((codigo, qtd)) => {
                        match self.comprar_relogio_em(codigo, qtd, timestamp) {
                            Outcome::Accepted => Efeito::Salvar,
                            _ => Efeito::Nada,
                        }
                    },
                    Err(ParseError::Formato) => {
                        self.say(messages::bad_format_line());
                        Efeito::Nada
                    },
                    Err(ParseError::Quantidade) => {
                        self.say(messages::bad_quantity_line());
                        Efeito::Nada
                    },
                };
                self.close_form();
                r
            },
            Tecla::Esc => {
                self.close_form();
                Efeito::Nada
            },
            Tecla::Backspace => {
                self.erase_char();
                Efeito::Nada
            },
            Tecla::Char(c) => {
                self.type_char(c);
                Efeito::Nada
            },
            _ => Efeito::Nada,
        }
    }

    /// What the sale form does with a key.
    fn step_venda(&mut self, tecla: Tecla, timestamp: String) -> (r: Efeito)
        requires
            old(self).wf(),
        ensures
            final(self).wf(),
            (final(self)@, r) == old(self)@.step_venda(tecla, timestamp@),
    {
        match tecla {
            Tecla::Enter => {
                let r = match parse_command(self.input.as_str()) {
                    Ok((codigo, qtd)) => {
                        match self.vender_relogio_em(codigo, qtd, timestamp) {
                            Outcome::Accepted => Efeito::Salvar,
                            _ => Efeito::Nada,
                        }
                    },
                    Err(ParseError::Formato) => {
                        self.say(messages::bad_format_line());
                        Efeito::Nada
                    },
                    Err(ParseError::Quantidade) => {
                        self.say(messages::bad_quantity_line());
                        Efeito::Nada
                    },
                };
                self.close_form();
                r
            },
            Tecla::Esc => {
                self.close_form();
                Efeito::Nada
            },
            Tecla::Backspace => {
                self.erase_char();
                Efeito::Nada
            },
            Tecla::Char(c) => {
                self.type_char(c);
                Efeito::Nada
            },
            _ => Efeito::Nada,
        }
    }

    /// Goes to the history view, at its top; on the way in a line tells the
    /// keys of the view.
    fn enter_history(&mut self)
        requires
            old(self).wf(),
        ensures
            final(self).wf(),
            final(self)@ == old(self)@.history_entered(),
    {
        if self.modo != Modo::Historico {
            self.say(messages::history_help_line());
        }
        self.modo = Modo::Historico;
        self.editing = false;
        self.input = String::new();
        self.historico = Cursor::new();
    }

    /// Moves the cursor of the list on the screen one row up.
    fn row_up(&mut self)
        requires
            old(self).wf(),
        ensures
            final(self).wf(),
            final(self)@ == old(self)@.row_up(),
    {
        match self.modo {
            Modo::Estoques => self.estoques_select_up(),
            Modo::Historico => self.historico_select_up(),
            Modo::Cadastro => self.cadastro_select_up(),
            Modo::Buscar => self.buscar_select_up(),
            _ => {},
        }
    }

    /// Moves the cursor of the list on the screen one row down.
    fn row_down(&mut self)
        requires
            old(self).wf(),
        ensures
            final(self).wf(),
            final(self)@ == old(self)@.row_down(),
    {
        match self.modo {
            Modo::Estoques => self.estoques_select_down(),
            Modo::Historico => self.historico_select_down(),
            Modo::Cadastro => self.cadastro_select_down(),
            Modo::Buscar => self.buscar_select_down(),
            _ => {},
        }
    }

    /// What the confirm key does while no text is typed.
    fn confirm(&mut self, timestamp: String) -> (r: Efeito)
        requires
            old(self).wf(),
        ensures
            final(self).wf(),
            (final(self)@, r) == old(self)@.confirmed(timestamp@),
    {
        match self.modo {
            Modo::Cadastro => match parse_command(self.input.as_str()) {
                Ok((codigo, qtd)) => {
                    self.cadastrar_relogio_em(codigo, qtd, timestamp);
                    self.clear_input();
                    Efeito::Salvar
                },
                Err(_) => Efeito::Nada,
            },
            Modo::Buscar => {
                if self.buscar.selected < self.buscar_results.len() {
                    assert(self.buscar_results.deep_view()[self.buscar.selected as int]
                        == self.buscar_results[self.buscar.selected as int].deep_view());
                    let codigo = self.buscar_results[self.buscar.selected].0.clone();
                    self.selecionar_registro(codigo);
                }
                Efeito::Nada
            },
            Modo::Estoques => {
                if self.estoques.selected < self.estoques_list.len() {
                    assert(self.estoques_list.deep_view()[self.estoques.selected as int]
                        == self.estoques_list[self.estoques.selected as int].deep_view());
                    let codigo = self.estoques_list[self.estoques.selected].codigo.clone();
                    self.selecionar_registro(codigo);
                }
                Efeito::Nada
            },
            _ => Efeito::Nada,
        }
    }

    /// Chooses the operation `op`, where a code is chosen and the view is the
    /// inventory or the search.
    fn operation_key(&mut self, op: Escolha)
        requires
            old(self).wf(),
        ensures
            final(self).wf(),
            final(self)@ == old(self)@.operation_key(op),
    {
        if self.chosen_relogio.is_some() && (self.modo == Modo::Estoques || self.modo
            == Modo::Buscar) {
            self.escolher_operacao(op);
        }
    }

    /// What a key does while no text is typed.
    fn step_viewing(&mut self, tecla: Tecla, timestamp: String) -> (r: Efeito)
        requires
            old(self).wf(),
        ensures
            final(self).wf(),
            (final(self)@, r) == old(self)@.step_viewing(tecla, timestamp@),
    {
        match tecla {
            Tecla::Char(c) => {
                if c == 'x' {
                    return Efeito::Sair;
                } else if c == 'c' {
                    self.entra_modo_insercao(Modo::Cadastro);
                } else if c == 'b' {
                    self.entra_modo_insercao(Modo::Buscar);
                    self.atualizar_busca_results();
                } else if c == 'h' {
                    self.enter_history();
                } else if c == 'g' {
                    self.modo = Modo::Grafico;
                } else if c == 'A' || c == 'a' {
                    self.operation_key(Escolha::Comprar);
                } else if c == 'V' || c == 'v' {
                    self.operation_key(Escolha::Vender);
                } else if (c == 'p' || c == 'P') && self.modo == Modo::Historico {
                    self.editing = true;
                    self.clear_input();
                    self.atualizar_historico_search_results();
                }
                Efeito::Nada
            },
            Tecla::Esc => {
                proof {
                    lemma_unfiltered_rows(self@);
                }
                self.cancelar_selecao();
                self.modo = Modo::Estoques;
                self.filtro = None;
                self.input = String::new();
                self.editing = false;
                Efeito::Nada
            },
            Tecla::Left => {
                if self.modo == Modo::Historico {
                    self.historico_tab_prev();
                }
                Efeito::Nada
            },
            Tecla::Right => {
                if self.modo == Modo::Historico {
                    self.historico_tab_next();
                }
                Efeito::Nada
            },
            Tecla::Up => {
                self.row_up();
                Efeito::Nada
            },
            Tecla::Down => {
                self.row_down();
                Efeito::Nada
            },
            Tecla::Enter => self.confirm(timestamp),
            _ => Efeito::Nada,
        }
    }

    /// Does what the key `tecla`, pressed at the time `timestamp`, asks for,
    /// and tells what is left to do: to write the store out, when it has
    /// changed, or to end.
    pub fn processar_tecla_em(&mut self, tecla: Tecla, timestamp: String) -> (r: Efeito)
        requires
            old(self).wf(),
        ensures
            final(self).wf(),
            (final(self)@, r) == old(self)@.step(tecla, timestamp@),
    {
        if self.editing {
            match self.modo {
                Modo::Cadastro => self.step_cadastro(tecla, timestamp),
                Modo::Buscar => self.step_buscar(tecla),
                Modo::Historico => self.step_historico(tecla),
                Modo::Compra => self.step_compra(tecla, timestamp),
                Modo::Venda => self.step_venda(tecla, timestamp),
                Modo::Estoques | Modo::Grafico => Efeito::Nada,
            }
        } else {
            self.step_viewing(tecla, timestamp)
        }
    }

    /// Does what the key `tecla`, pressed now, asks for, and tells what is left
    /// to do.
    pub fn processar_tecla(&mut self, tecla: Tecla) -> (r: Efeito)
        requires
            old(self).wf(),
        ensures
            final(self).wf(),
            exists|timestamp: Seq<char>| (final(self)@, r) == old(self)@.step(tecla, timestamp),
    {
        let timestamp = now_timestamp();
        self.processar_tecla_em(tecla, timestamp)
    }

    /// The store.
    pub fn store(&self) -> (s: &Store)
        ensures
            s@ == self@.store,
            self.wf() ==> s.wf(),
    {
        &self.store
    }

    /// The view that is on the screen.
    pub fn modo(&self) -> (m: Modo)
        ensures
            m == self@.modo,
    {
        self.modo
    }

    /// Whether text is being typed.
    pub fn editing(&self) -> (b: bool)
        ensures
            b == self@.editing,
    {
        self.editing
    }

    /// What has been typed.
    pub fn input(&self) -> (s: &str)
        ensures
            s@ == self@.input,
    {
        self.input.as_str()
    }

    /// The messages, oldest first.
    pub fn mensagens(&self) -> (m: &Vec<String>)
        ensures
            m.deep_view() == self@.mensagens,
    {
        &self.mensagens
    }

    /// The place in the messages from which the last `n` of them stand, or 0
    /// when they are fewer.
    pub fn ultimas_mensagens(&self, n: usize) -> (start: usize)
        ensures
            start <= self@.mensagens.len(),
            start == if self@.mensagens.len() > n {
                self@.mensagens.len() - n
            } else {
                0
            },
    {
        assert(self.mensagens.deep_view().len() == self.mensagens.len());
        let total = self.mensagens.len();
        if total > n {
            total - n
        } else {
            0
        }
    }

    /// The code by which the history is filtered, if it is.
    pub fn filtro(&self) -> (f: &Option<String>)
        ensures
            text_of(*f) == self@.filtro,
    {
        &self.filtro
    }

    /// The tab of the history that is shown.
    pub fn historico_tab(&self) -> (t: HistoricoTab)
        ensures
            t == self@.historico_tab,
    {
        self.historico_tab
    }

    /// The list of the inventory: all items, in ascending order of their codes.
    pub fn estoques_list(&self) -> (l: &Vec<Relogio>)
        ensures
            self.wf() ==> l.deep_view() == self@.items(),
    {
        &self.estoques_list
    }

    /// The cursor of the inventory.
    pub fn estoques_cursor(&self) -> (c: Cursor)
        ensures
            c == self@.estoques,
    {
        self.estoques
    }

    /// The registration list: all items, in ascending order of their codes.
    pub fn cadastro_list(&self) -> (l: &Vec<Relogio>)
        ensures
            self.wf() ==> l.deep_view() == self@.items(),
    {
        &self.cadastro_list
    }

    /// The cursor of the registration list.
    pub fn cadastro_cursor(&self) -> (c: Cursor)
        ensures
            c == self@.cadastro,
    {
        self.cadastro
    }

    /// The results of the search as they were ranked last: code, quantity and
    /// distance.
    pub fn buscar_results(&self) -> (l: &Vec<(String, i32, usize)>)
        ensures
            l.deep_view() == self@.buscar_results,
    {
        &self.buscar_results
    }

    /// The cursor of the results of the search.
    pub fn buscar_cursor(&self) -> (c: Cursor)
        ensures
            c == self@.buscar,
    {
        self.buscar
    }

    /// The cursor of the history.
    pub fn historico_cursor(&self) -> (c: Cursor)
        ensures
            c == self@.historico,
    {
        self.historico
    }

    /// The suggestions for the filter of the history as they were ranked last:
    /// code and distance.
    pub fn historico_search_results(&self) -> (l: &Vec<(String, usize)>)
        ensures
            l.deep_view() == self@.historico_search_results,
    {
        &self.historico_search_results
    }

    /// The place of the selected suggestion.
    pub fn historico_search_selected(&self) -> (i: usize)
        ensures
            i == self@.historico_search_selected,
    {
        self.historico_search_selected
    }

    /// The chosen code, if one is chosen.
    pub fn chosen_relogio(&self) -> (c: &Option<String>)
        ensures
            text_of(*c) == self@.chosen_relogio,
    {
        &self.chosen_relogio
    }

    /// The chosen operation, if one is chosen.
    pub fn chosen_operation(&self) -> (op: Option<Escolha>)
        ensures
            op == self@.chosen_operation,
    {
        self.chosen_operation
    }
}

} // verus!
