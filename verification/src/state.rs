//! The state of the application as a plain value, and what each key does to
//! it.

use vstd::prelude::*;
use crate::cursor::Cursor;
use crate::history::{in_tab, HistoricoTab};
use crate::messages;
use crate::parse::{command, trimmed, ParseError};
use crate::rank::{ranking_of, without_values};
use crate::sorted_map::listing_of;
use crate::store::{HistoricoView, Outcome, StoreModel};

verus! {

/// The rows of a list that a cursor keeps in sight around the selected one.
pub const VIS_HEIGHT: usize = 5;

/// The view that is on the screen.
#[derive(Clone, Copy, Debug, PartialEq, Eq, Structural)]
pub enum Modo {
    Cadastro,
    Buscar,
    Historico,
    Estoques,
    Grafico,
    Compra,
    Venda,
}

/// A key as the application reads it.
#[derive(Clone, Copy, Debug, PartialEq, Eq, Structural)]
pub enum Tecla {
    Char(char),
    Enter,
    Esc,
    Backspace,
    Up,
    Down,
    Left,
    Right,
    /// Any other key.
    Outra,
}

/// What is left to do, after a key, for whoever runs the application.
#[derive(Clone, Copy, Debug, PartialEq, Eq, Structural)]
pub enum Efeito {
    /// Nothing.
    Nada,
    /// The store has changed and is to be written out.
    Salvar,
    /// The application is to end.
    Sair,
}

/// The operation chosen for the selected code.
#[derive(Clone, Copy, Debug, PartialEq, Eq, Structural)]
pub enum Escolha {
    Comprar,
    Vender,
}

impl Escolha {
    /// The letter of the key that chooses the operation.
    pub open spec fn letter(self) -> char {
        match self {
            Escolha::Comprar => 'A',
            Escolha::Vender => 'V',
        }
    }

    /// The form in which the operation is filled in.
    pub open spec fn form(self) -> Modo {
        match self {
            Escolha::Comprar => Modo::Compra,
            Escolha::Vender => Modo::Venda,
        }
    }

    /// The letter of the key that chooses the operation.
    pub fn letra(&self) -> (c: char)
        ensures
            c == self.letter(),
    {
        match self {
            Escolha::Comprar => 'A',
            Escolha::Vender => 'V',
        }
    }

    /// The form in which the operation is filled in.
    pub fn modo(&self) -> (m: Modo)
        ensures
            m == self.form(),
    {
        match self {
            Escolha::Comprar => Modo::Compra,
            Escolha::Vender => Modo::Venda,
        }
    }
}

/// The state of the application as a plain value.
pub struct AppView {
    pub store: StoreModel,
    pub modo: Modo,
    pub editing: bool,
    pub input: Seq<char>,
    pub mensagens: Seq<Seq<char>>,
    /// The code by which the history is filtered, if it is.
    pub filtro: Option<Seq<char>>,
    pub historico_tab: HistoricoTab,
    pub estoques: Cursor,
    pub cadastro: Cursor,
    pub buscar: Cursor,
    pub historico: Cursor,
    pub buscar_results: Seq<(Seq<char>, i32, usize)>,
    pub historico_search_results: Seq<(Seq<char>, usize)>,
    pub historico_search_selected: usize,
    pub chosen_relogio: Option<Seq<char>>,
    pub chosen_operation: Option<Escolha>,
}

impl AppView {
    /// The state in which the application starts over a store: in the
    /// inventory, not typing, with a greeting as its only message, every list
    /// at its top, nothing ranked, nothing chosen.
    pub open spec fn initial(store: StoreModel) -> AppView {
        let top = Cursor { offset: 0, selected: 0 };
        AppView {
            store,
            modo: Modo::Estoques,
            editing: false,
            input: Seq::empty(),
            mensagens: seq![messages::welcome()],
            filtro: None,
            historico_tab: HistoricoTab::Todos,
            estoques: top,
            cadastro: top,
            buscar: top,
            historico: top,
            buscar_results: Seq::empty(),
            historico_search_results: Seq::empty(),
            historico_search_selected: 0,
            chosen_relogio: None,
            chosen_operation: None,
        }
    }

    /// The items in the order in which the lists show them.
    pub open spec fn items(self) -> Seq<(Seq<char>, i32)> {
        listing_of(self.store.itens)
    }

    /// The events among which the tabs choose: those of the code of the filter,
    /// or all of them when there is no filter.
    pub open spec fn filtered_log(self) -> Seq<HistoricoView> {
        match self.filtro {
            Some(code) => self.store.history_for(code),
            None => self.store.historico,
        }
    }

    /// The rows of the history view: the events that the filter lets through
    /// and the tab shows, oldest first.
    pub open spec fn rows(self) -> Seq<HistoricoView> {
        self.filtered_log().filter(in_tab(self.historico_tab))
    }

    /// The ranking of the items against the text `query`.
    pub open spec fn search(self, query: Seq<char>) -> Seq<(Seq<char>, i32, usize)> {
        ranking_of(self.store.itens, query)
    }

    /// The ranking of the codes of the log against the text `query`.
    pub open spec fn suggestions(self, query: Seq<char>) -> Seq<(Seq<char>, usize)> {
        without_values(ranking_of(self.store.logged_codes(), query))
    }

    /// Every cursor selects a row of its list, within its window.
    pub open spec fn wf(self) -> bool {
        &&& self.estoques.inv(self.items().len(), VIS_HEIGHT as nat)
        &&& self.cadastro.inv(self.items().len(), VIS_HEIGHT as nat)
        &&& self.buscar.inv(self.buscar_results.len(), VIS_HEIGHT as nat)
        &&& self.historico.inv(self.rows().len(), VIS_HEIGHT as nat)
        &&& self.rows().len() == 0 ==> self.historico.selected == 0
        &&& self.historico_search_selected == 0 || self.historico_search_selected
            < self.historico_search_results.len()
    }

    /// With one more line at the end of the messages.
    pub open spec fn say(self, line: Seq<char>) -> AppView {
        AppView { mensagens: self.mensagens.push(line), ..self }
    }

    /// With the cursor of the inventory brought back into its list.
    pub open spec fn estoques_refreshed(self) -> AppView {
        AppView { estoques: self.estoques.clamped(self.items().len()), ..self }
    }

    /// With the cursor of the registration list brought back into its list.
    pub open spec fn cadastro_refreshed(self) -> AppView {
        AppView { cadastro: self.cadastro.clamped(self.items().len()), ..self }
    }

    /// With the items ranked anew against the input, and the cursor of the
    /// search brought back into the ranking.
    pub open spec fn search_ranked(self) -> AppView {
        let r = self.search(self.input);
        AppView { buscar_results: r, buscar: self.buscar.clamped(r.len()), ..self }
    }

    /// With the codes of the log ranked anew against the input, without the
    /// blanks around it, and the selected suggestion brought back into them.
    pub open spec fn suggestions_ranked(self) -> AppView {
        let r = self.suggestions(trimmed(self.input));
        AppView {
            historico_search_results: r,
            historico_search_selected: if r.len() == 0 {
                0
            } else if self.historico_search_selected >= r.len() {
                (r.len() - 1) as usize
            } else {
                self.historico_search_selected
            },
            ..self
        }
    }

    /// After a registration: the store holds it, a line says so, and the lists
    /// follow.
    pub open spec fn registered(self, code: Seq<char>, quantity: i32, timestamp: Seq<char>) -> AppView {
        AppView { store: self.store.register(code, quantity, timestamp), ..self }.say(
            messages::registered(code, quantity),
        ).estoques_refreshed().cadastro_refreshed()
    }

    /// The line that a purchase writes.
    pub open spec fn buy_line(self, code: Seq<char>, quantity: i32) -> Seq<char> {
        match self.store.buy_outcome(code, quantity) {
            Outcome::Accepted => messages::bought(code, quantity),
            _ => messages::bad_quantity(),
        }
    }

    /// After a purchase: the store holds it, if it accepts it, a line says what
    /// came of it, and the lists follow.
    pub open spec fn bought(self, code: Seq<char>, quantity: i32, timestamp: Seq<char>) -> AppView {
        AppView { store: self.store.buy(code, quantity, timestamp), ..self }.say(
            self.buy_line(code, quantity),
        ).estoques_refreshed().cadastro_refreshed()
    }

    /// The line that a sale writes.
    pub open spec fn sell_line(self, code: Seq<char>, quantity: i32) -> Seq<char> {
        match self.store.sell_outcome(code, quantity) {
            Outcome::Accepted => messages::sold(code, quantity),
            Outcome::Insufficient => messages::insufficient(),
            Outcome::NotFound => messages::not_found(),
            Outcome::OutOfRange => messages::bad_quantity(),
        }
    }

    /// After a sale: the store holds it, if it accepts it, a line says what came
    /// of it, and the lists follow.
    pub open spec fn sold(self, code: Seq<char>, quantity: i32, timestamp: Seq<char>) -> AppView {
        AppView { store: self.store.sell(code, quantity, timestamp), ..self }.say(
            self.sell_line(code, quantity),
        ).estoques_refreshed().cadastro_refreshed()
    }

    /// In the view `modo`, typing into an empty input, the history unfiltered.
    pub open spec fn entered(self, modo: Modo) -> AppView {
        AppView { modo, input: Seq::empty(), editing: true, filtro: None, ..self }
    }

    /// Back in the inventory, not typing, the input empty, the history
    /// unfiltered.
    pub open spec fn left(self) -> AppView {
        AppView { modo: Modo::Estoques, input: Seq::empty(), editing: false, filtro: None, ..self }
    }

    /// With no code and no operation chosen.
    pub open spec fn unselected(self) -> AppView {
        AppView { chosen_relogio: None, chosen_operation: None, ..self }
    }

    /// With the code `code` chosen and no operation yet, and a line that says
    /// so.
    pub open spec fn selected(self, code: Seq<char>) -> AppView {
        AppView { chosen_relogio: Some(code), chosen_operation: None, ..self }.say(
            messages::row_selected(code),
        )
    }

    /// With the choice given up, and a line that says so.
    pub open spec fn selection_cancelled(self) -> AppView {
        self.unselected().say(messages::selection_cancelled())
    }

    /// With the operation `op` chosen for the chosen code, in the form of that
    /// operation, the code and a space typed in already. Without a chosen code
    /// nothing changes.
    pub open spec fn operation_chosen(self, op: Escolha) -> AppView {
        match self.chosen_relogio {
            None => self,
            Some(code) => AppView {
                chosen_operation: Some(op),
                modo: op.form(),
                editing: true,
                input: code.push(' '),
                ..self
            }.say(messages::operation_chosen(op.letter(), code)),
        }
    }

    /// With the history filtered by `code`, or unfiltered when `code` is empty
    /// or the log holds nothing of it; a line says which, and the history
    /// starts at its top.
    pub open spec fn filtered(self, code: Seq<char>) -> AppView {
        let v = if code.len() == 0 {
            AppView { filtro: None, ..self }.say(messages::filter_removed())
        } else if self.store.history_for(code).len() == 0 {
            AppView { filtro: None, ..self }.say(messages::no_history())
        } else {
            AppView { filtro: Some(code), ..self }.say(messages::history_filtered(code))
        };
        AppView { historico: Cursor { offset: 0, selected: 0 }, ..v }
    }

    /// With the tab to the right, the history at its top.
    pub open spec fn tab_next(self) -> AppView {
        AppView {
            historico_tab: self.historico_tab.right(),
            historico: Cursor { offset: 0, selected: 0 },
            ..self
        }
    }

    /// With the tab to the left, the history at its top.
    pub open spec fn tab_prev(self) -> AppView {
        AppView {
            historico_tab: self.historico_tab.left(),
            historico: Cursor { offset: 0, selected: 0 },
            ..self
        }
    }

    /// With the suggestion above selected, if there is one.
    pub open spec fn suggestion_up(self) -> AppView {
        AppView {
            historico_search_selected: if self.historico_search_selected > 0 {
                (self.historico_search_selected - 1) as usize
            } else {
                self.historico_search_selected
            },
            ..self
        }
    }

    /// With the suggestion below selected, if there is one.
    pub open spec fn suggestion_down(self) -> AppView {
        AppView {
            historico_search_selected: if self.historico_search_selected + 1
                < self.historico_search_results.len() {
                (self.historico_search_selected + 1) as usize
            } else {
                self.historico_search_selected
            },
            ..self
        }
    }

    /// With `c` typed at the end of the input.
    pub open spec fn typed(self, c: char) -> AppView {
        AppView { input: self.input.push(c), ..self }
    }

    /// With the last character of the input rubbed out, if there is one.
    pub open spec fn erased(self) -> AppView {
        AppView {
            input: if self.input.len() > 0 {
                self.input.drop_last()
            } else {
                self.input
            },
            ..self
        }
    }

    /// Back in the inventory after a form: not typing, the input empty, nothing
    /// chosen.
    pub open spec fn form_closed(self) -> AppView {
        AppView { modo: Modo::Estoques, editing: false, input: Seq::empty(), ..self }.unselected()
    }

    /// What the registration form does with a key.
    pub open spec fn step_cadastro(self, key: Tecla, timestamp: Seq<char>) -> (AppView, Efeito) {
        match key {
            Tecla::Enter => match command(self.input) {
                Ok((code, quantity)) => (
                    self.registered(code, quantity, timestamp).left().unselected(),
                    Efeito::Salvar,
                ),
                Err(ParseError::Formato) => (
                    self.say(messages::bad_format()).left().unselected(),
                    Efeito::Nada,
                ),
                Err(ParseError::Quantidade) => (
                    self.say(messages::bad_quantity()).left().unselected(),
                    Efeito::Nada,
                ),
            },
            Tecla::Esc => (self.left().unselected(), Efeito::Nada),
            Tecla::Backspace => (self.erased(), Efeito::Nada),
            Tecla::Char(c) => (self.typed(c), Efeito::Nada),
            _ => (self, Efeito::Nada),
        }
    }

    /// What the search does with a key while the query is typed.
    pub open spec fn step_buscar(self, key: Tecla) -> (AppView, Efeito) {
        match key {
            Tecla::Enter => (AppView { editing: false, ..self }, Efeito::Nada),
            Tecla::Esc => (self.left(), Efeito::Nada),
            Tecla::Backspace => (self.erased().search_ranked(), Efeito::Nada),
            Tecla::Char(c) => (self.typed(c).search_ranked(), Efeito::Nada),
            _ => (self, Efeito::Nada),
        }
    }

    /// The code by which a confirmed search of the history filters: that of the
    /// first suggestion, or what was typed, without the blanks around it, when
    /// there is no suggestion.
    pub open spec fn filter_code(self) -> Seq<char> {
        if self.historico_search_results.len() > 0 {
            self.historico_search_results[0].0
        } else {
            trimmed(self.input)
        }
    }

    /// What the history does with a key while its filter is typed.
    pub open spec fn step_historico(self, key: Tecla) -> (AppView, Efeito) {
        match key {
            Tecla::Enter => (
                AppView { editing: false, input: Seq::empty(), ..self.filtered(self.filter_code()) },
                Efeito::Nada,
            ),
            Tecla::Esc => (
                AppView { editing: false, input: Seq::empty(), ..self }.filtered(Seq::empty()),
                Efeito::Nada,
            ),
            Tecla::Backspace => (self.erased().suggestions_ranked(), Efeito::Nada),
            Tecla::Char(c) => (self.typed(c).suggestions_ranked(), Efeito::Nada),
            Tecla::Up => (self.suggestion_up(), Efeito::Nada),
            Tecla::Down => (self.suggestion_down(), Efeito::Nada),
            _ => (self, Efeito::Nada),
        }
    }

    /// What the purchase form does with a key.
    pub open spec fn step_compra(self, key: Tecla, timestamp: Seq<char>) -> (AppView, Efeito) {
        match key {
            Tecla::Enter => match command(self.input) {
                Ok((code, quantity)) => (
                    self.bought(code, quantity, timestamp).form_closed(),
                    if self.store.buy_outcome(code, quantity) == Outcome::Accepted {
                        Efeito::Salvar
                    } else {
                        Efeito::Nada
                    },
                ),
                Err(ParseError::Formato) => (
                    self.say(messages::bad_format()).form_closed(),
                    Efeito::Nada,
                ),
                Err(ParseError::Quantidade) => (
                    self.say(messages::bad_quantity()).form_closed(),
                    Efeito::Nada,
                ),
            },
            Tecla::Esc => (self.form_closed(), Efeito::Nada),
            Tecla::Backspace => (self.erased(), Efeito::Nada),
            Tecla::Char(c) => (self.typed(c), Efeito::Nada),
            _ => (self, Efeito::Nada),
        }
    }

    /// What the sale form does with a key.
    pub open spec fn step_venda(self, key: Tecla, timestamp: Seq<char>) -> (AppView, Efeito) {
        match key {
            Tecla::Enter => match command(self.input) {
                Ok((code, quantity)) => (
                    self.sold(code, quantity, timestamp).form_closed(),
                    if self.store.sell_outcome(code, quantity) == Outcome::Accepted {
                        Efeito::Salvar
                    } else {
                        Efeito::Nada
                    },
                ),
                Err(ParseError::Formato) => (
                    self.say(messages::bad_format()).form_closed(),
                    Efeito::Nada,
                ),
                Err(ParseError::Quantidade) => (
                    self.say(messages::bad_quantity()).form_closed(),
                    Efeito::Nada,
                ),
            },
            Tecla::Esc => (self.form_closed(), Efeito::Nada),
            Tecla::Backspace => (self.erased(), Efeito::Nada),
            Tecla::Char(c) => (self.typed(c), Efeito::Nada),
            _ => (self, Efeito::Nada),
        }
    }

    /// What a key does while text is typed.
    pub open spec fn step_editing(self, key: Tecla, timestamp: Seq<char>) -> (AppView, Efeito) {
        match self.modo {
            Modo::Cadastro => self.step_cadastro(key, timestamp),
            Modo::Buscar => self.step_buscar(key),
            Modo::Historico => self.step_historico(key),
            Modo::Compra => self.step_compra(key, timestamp),
            Modo::Venda => self.step_venda(key, timestamp),
            Modo::Estoques | Modo::Grafico => (self, Efeito::Nada),
        }
    }

    /// In the history view, not typing, the input empty, the history at its
    /// top; on the way in a line tells the keys of the view.
    pub open spec fn history_entered(self) -> AppView {
        let v = if self.modo != Modo::Historico {
            self.say(messages::history_help())
        } else {
            self
        };
        AppView {
            modo: Modo::Historico,
            editing: false,
            input: Seq::empty(),
            historico: Cursor { offset: 0, selected: 0 },
            ..v
        }
    }

    /// With the cursor of the list on the screen one row up.
    pub open spec fn row_up(self) -> AppView {
        match self.modo {
            Modo::Estoques => AppView { estoques: self.estoques.up(), ..self },
            Modo::Historico => AppView { historico: self.historico.up(), ..self },
            Modo::Cadastro => AppView { cadastro: self.cadastro.up(), ..self },
            Modo::Buscar => AppView { buscar: self.buscar.up(), ..self },
            _ => self,
        }
    }

    /// With the cursor of the list on the screen one row down.
    pub open spec fn row_down(self) -> AppView {
        let height = VIS_HEIGHT as nat;
        match self.modo {
            Modo::Estoques => AppView {
                estoques: self.estoques.down(self.items().len(), height),
                ..self
            },
            Modo::Historico => AppView {
                historico: self.historico.down(self.rows().len(), height),
                ..self
            },
            Modo::Cadastro => AppView {
                cadastro: self.cadastro.down(self.items().len(), height),
                ..self
            },
            Modo::Buscar => AppView {
                buscar: self.buscar.down(self.buscar_results.len(), height),
                ..self
            },
            _ => self,
        }
    }

    /// What the confirm key does while no text is typed: it chooses the code of
    /// the selected row of the inventory or of the search. In the registration
    /// view it registers what the input asks for, if it asks for something.
    pub open spec fn confirmed(self, timestamp: Seq<char>) -> (AppView, Efeito) {
        match self.modo {
            Modo::Cadastro => match command(self.input) {
                Ok((code, quantity)) => (
                    AppView { input: Seq::empty(), ..self.registered(code, quantity, timestamp) },
                    Efeito::Salvar,
                ),
                Err(_) => (self, Efeito::Nada),
            },
            Modo::Buscar => if self.buscar.selected < self.buscar_results.len() {
                (self.selected(self.buscar_results[self.buscar.selected as int].0), Efeito::Nada)
            } else {
                (self, Efeito::Nada)
            },
            Modo::Estoques => if self.estoques.selected < self.items().len() {
                (self.selected(self.items()[self.estoques.selected as int].0), Efeito::Nada)
            } else {
                (self, Efeito::Nada)
            },
            _ => (self, Efeito::Nada),
        }
    }

    /// With the operation `op` chosen, where a code is chosen and the view is
    /// the inventory or the search.
    pub open spec fn operation_key(self, op: Escolha) -> AppView {
        if self.chosen_relogio is Some && (self.modo == Modo::Estoques || self.modo == Modo::Buscar) {
            self.operation_chosen(op)
        } else {
            self
        }
    }

    /// What a key does while no text is typed.
    pub open spec fn step_viewing(self, key: Tecla, timestamp: Seq<char>) -> (AppView, Efeito) {
        match key {
            Tecla::Char(c) => if c == 'x' {
                (self, Efeito::Sair)
            } else if c == 'c' {
                (self.entered(Modo::Cadastro), Efeito::Nada)
            } else if c == 'b' {
                (self.entered(Modo::Buscar).search_ranked(), Efeito::Nada)
            } else if c == 'h' {
                (self.history_entered(), Efeito::Nada)
            } else if c == 'g' {
                (AppView { modo: Modo::Grafico, ..self }, Efeito::Nada)
            } else if c == 'A' || c == 'a' {
                (self.operation_key(Escolha::Comprar), Efeito::Nada)
            } else if c == 'V' || c == 'v' {
                (self.operation_key(Escolha::Vender), Efeito::Nada)
            } else if (c == 'p' || c == 'P') && self.modo == Modo::Historico {
                (
                    AppView { editing: true, input: Seq::empty(), ..self }.suggestions_ranked(),
                    Efeito::Nada,
                )
            } else {
                (self, Efeito::Nada)
            },
            Tecla::Esc => (
                AppView {
                    modo: Modo::Estoques,
                    filtro: None,
                    input: Seq::empty(),
                    editing: false,
                    ..self.selection_cancelled()
                },
                Efeito::Nada,
            ),
            Tecla::Left => (
                if self.modo == Modo::Historico {
                    self.tab_prev()
                } else {
                    self
                },
                Efeito::Nada,
            ),
            Tecla::Right => (
                if self.modo == Modo::Historico {
                    self.tab_next()
                } else {
                    self
                },
                Efeito::Nada,
            ),
            Tecla::Up => (self.row_up(), Efeito::Nada),
            Tecla::Down => (self.row_down(), Efeito::Nada),
            Tecla::Enter => self.confirmed(timestamp),
            _ => (self, Efeito::Nada),
        }
    }

    /// What a key, pressed at the time `timestamp`, does to the application,
    /// and what it leaves to do.
    pub open spec fn step(self, key: Tecla, timestamp: Seq<char>) -> (AppView, Efeito) {
        if self.editing {
            self.step_editing(key, timestamp)
        } else {
            self.step_viewing(key, timestamp)
        }
    }
}

impl AppView {
    /// Text is typed in the views that take text, and in no other; and an
    /// operation is chosen only for a chosen code.
    pub open spec fn coherent(self) -> bool {
        &&& self.editing ==> self.modo != Modo::Estoques && self.modo != Modo::Grafico
        &&& !self.editing ==> self.modo != Modo::Cadastro && self.modo != Modo::Compra && self.modo
            != Modo::Venda
        &&& self.chosen_operation is Some ==> self.chosen_relogio is Some
    }
}

/// The application ends on the key `x`, pressed while no text is typed, and on
/// nothing else; and that key changes nothing.
pub proof fn lemma_quit_only_when_viewing(v: AppView, key: Tecla, timestamp: Seq<char>)
    ensures
        v.step(key, timestamp).1 == Efeito::Sair <==> !v.editing && key == Tecla::Char('x'),
        v.step(key, timestamp).1 == Efeito::Sair ==> v.step(key, timestamp).0 == v,
{
}

/// The store is to be written out exactly when a key has changed it, and then
/// the log holds one event more; no key changes or takes away an event of the
/// log.
pub proof fn lemma_save_when_store_changes(v: AppView, key: Tecla, timestamp: Seq<char>)
    ensures
        ({
            let (w, effect) = v.step(key, timestamp);
            &&& effect != Efeito::Salvar ==> w.store == v.store
            &&& effect == Efeito::Salvar ==> w.store.historico.len() == v.store.historico.len() + 1
            &&& w.store.historico.take(v.store.historico.len() as int) == v.store.historico
        }),
{
    let (w, effect) = v.step(key, timestamp);
    if effect == Efeito::Salvar {
        assert(w.store.historico.drop_last() =~= v.store.historico);
    }
    assert(w.store.historico.take(v.store.historico.len() as int) =~= v.store.historico);
}

/// No key changes or takes away a message: what a key writes comes after what
/// was written before.
pub proof fn lemma_messages_are_kept(v: AppView, key: Tecla, timestamp: Seq<char>)
    ensures
        ({
            let w = v.step(key, timestamp).0;
            &&& w.mensagens.len() >= v.mensagens.len()
            &&& w.mensagens.take(v.mensagens.len() as int) == v.mensagens
        }),
{
    let w = v.step(key, timestamp).0;
    assert(w.mensagens.take(v.mensagens.len() as int) =~= v.mensagens);
}

/// Whatever the keys, text is typed only in the views that take text, and an
/// operation is chosen only for a chosen code.
pub proof fn lemma_step_keeps_coherent(v: AppView, key: Tecla, timestamp: Seq<char>)
    requires
        v.coherent(),
    ensures
        v.step(key, timestamp).0.coherent(),
{
}

/// The state in which the application starts is coherent.
pub proof fn lemma_initial_coherent(store: StoreModel)
    ensures
        AppView::initial(store).coherent(),
{
}

/// A form that is confirmed or given up leaves the application in the
/// inventory, not typing, with an empty input and nothing chosen.
pub proof fn lemma_forms_return_to_inventory(v: AppView, key: Tecla, timestamp: Seq<char>)
    requires
        v.editing,
        v.modo == Modo::Cadastro || v.modo == Modo::Compra || v.modo == Modo::Venda,
        key == Tecla::Enter || key == Tecla::Esc,
    ensures
        ({
            let w = v.step(key, timestamp).0;
            &&& w.modo == Modo::Estoques
            &&& !w.editing
            &&& w.input == Seq::<char>::empty()
            &&& w.chosen_relogio is None
            &&& w.chosen_operation is None
        }),
{
}

/// A sale of more than is on hand, confirmed in the sale form, leaves the
/// store as it was, leaves nothing to write out, and writes the line that says
/// so.
pub proof fn lemma_sale_beyond_stock_is_told(v: AppView, code: Seq<char>, quantity: i32, timestamp: Seq<char>)
    requires
        v.store.itens.dom().contains(code),
        quantity > v.store.itens[code],
    ensures
        v.sold(code, quantity, timestamp).store == v.store,
        v.sold(code, quantity, timestamp).mensagens == v.mensagens.push(messages::insufficient()),
{
}

} // verus!
