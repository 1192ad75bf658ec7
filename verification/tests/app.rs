use estoque_relogios::app::App;
use estoque_relogios::cursor::Cursor;
use estoque_relogios::history::HistoricoTab;
use estoque_relogios::state::{Efeito, Escolha, Modo, Tecla};
use estoque_relogios::store::{Historico, Operacao, Outcome, Relogio};

const T: &str = "2024-06-01 12:00:00";

fn empty_app() -> App {
    App::new(Vec::new(), Vec::new())
}

fn press(app: &mut App, tecla: Tecla) -> Efeito {
    app.processar_tecla_em(tecla, T.to_string())
}

fn type_text(app: &mut App, text: &str) {
    for c in text.chars() {
        assert_eq!(press(app, Tecla::Char(c)), Efeito::Nada);
    }
}

fn item(codigo: &str, quantidade: i32) -> Relogio {
    Relogio { codigo: codigo.to_string(), quantidade }
}

fn last_message(app: &App) -> String {
    app.mensagens().last().unwrap().clone()
}

fn app_with(codes: &[(&str, i32)]) -> App {
    let mut app = empty_app();
    for (code, quantity) in codes {
        app.cadastrar_relogio_em(code.to_string(), *quantity, T.to_string());
    }
    app
}

#[test]
fn app_starts_in_the_inventory() {
    let app = empty_app();
    assert_eq!(app.modo(), Modo::Estoques);
    assert!(!app.editing());
    assert_eq!(app.input(), "");
    assert_eq!(app.mensagens(), &vec!["Bem-vindo ao Sistema de Relógios (Estoque)!".to_string()]);
    assert_eq!(app.filtro(), &None);
    assert_eq!(app.historico_tab(), HistoricoTab::Todos);
    assert!(app.estoques_list().is_empty());
    assert!(app.cadastro_list().is_empty());
    assert!(app.buscar_results().is_empty());
    assert!(app.historico_search_results().is_empty());
    assert_eq!(app.historico_search_selected(), 0);
    assert_eq!(app.estoques_cursor(), Cursor { offset: 0, selected: 0 });
    assert_eq!(app.cadastro_cursor(), Cursor { offset: 0, selected: 0 });
    assert_eq!(app.buscar_cursor(), Cursor { offset: 0, selected: 0 });
    assert_eq!(app.historico_cursor(), Cursor { offset: 0, selected: 0 });
    assert_eq!(app.chosen_relogio(), &None);
    assert_eq!(app.chosen_operation(), None);
}

#[test]
fn app_is_built_over_what_was_kept() {
    let app = App::new(
        vec![item("B2", 2), item("A1", 1), item("B2", 5)],
        vec![Historico {
            codigo: "A1".to_string(),
            quantidade: 1,
            operacao: Operacao::Cadastro,
            timestamp: T.to_string(),
        }],
    );
    assert_eq!(app.estoques_list(), &vec![item("A1", 1), item("B2", 5)]);
    assert_eq!(app.cadastro_list(), &vec![item("A1", 1), item("B2", 5)]);
    assert_eq!(app.store().history_len(), 1);
}

#[test]
fn end_to_end_register_buy_sell() {
    let mut app = empty_app();

    // Register "A1 10".
    assert_eq!(press(&mut app, Tecla::Char('c')), Efeito::Nada);
    assert_eq!(app.modo(), Modo::Cadastro);
    assert!(app.editing());
    type_text(&mut app, "A1 10");
    assert_eq!(app.input(), "A1 10");
    assert_eq!(press(&mut app, Tecla::Enter), Efeito::Salvar);
    assert_eq!(app.modo(), Modo::Estoques);
    assert!(!app.editing());
    assert_eq!(app.input(), "");
    assert_eq!(app.estoques_list(), &vec![item("A1", 10)]);
    assert_eq!(app.store().history_len(), 1);
    assert_eq!(app.store().history()[0].operacao, Operacao::Cadastro);
    assert_eq!(app.store().history()[0].timestamp, T);
    assert_eq!(last_message(&app), "Relógio A1 cadastrado com 10 unidades");

    // Choose the row, then buy "A1 5".
    assert_eq!(press(&mut app, Tecla::Enter), Efeito::Nada);
    assert_eq!(app.chosen_relogio(), &Some("A1".to_string()));
    assert_eq!(app.chosen_operation(), None);
    assert_eq!(press(&mut app, Tecla::Char('a')), Efeito::Nada);
    assert_eq!(app.modo(), Modo::Compra);
    assert!(app.editing());
    assert_eq!(app.chosen_operation(), Some(Escolha::Comprar));
    assert_eq!(app.input(), "A1 ");
    type_text(&mut app, "5");
    assert_eq!(press(&mut app, Tecla::Enter), Efeito::Salvar);
    assert_eq!(app.estoques_list(), &vec![item("A1", 15)]);
    assert_eq!(app.modo(), Modo::Estoques);
    assert_eq!(app.chosen_relogio(), &None);
    assert_eq!(app.chosen_operation(), None);
    assert_eq!(last_message(&app), "Adicionado 5 unidades do relógio A1");

    // Sell "A1 20": turned down.
    press(&mut app, Tecla::Enter);
    press(&mut app, Tecla::Char('V'));
    assert_eq!(app.modo(), Modo::Venda);
    assert_eq!(app.input(), "A1 ");
    type_text(&mut app, "20");
    let messages_before = app.mensagens().len();
    assert_eq!(press(&mut app, Tecla::Enter), Efeito::Nada);
    assert_eq!(app.estoques_list(), &vec![item("A1", 15)]);
    assert_eq!(app.store().history_len(), 2);
    assert_eq!(app.mensagens().len(), messages_before + 1);
    assert_eq!(last_message(&app), "Não há estoque suficiente para vender!");
    assert_eq!(app.modo(), Modo::Estoques);

    // Sell "A1 15".
    press(&mut app, Tecla::Enter);
    press(&mut app, Tecla::Char('v'));
    type_text(&mut app, "15");
    assert_eq!(press(&mut app, Tecla::Enter), Efeito::Salvar);
    assert_eq!(app.estoques_list(), &vec![item("A1", 0)]);
    assert_eq!(app.store().history_len(), 3);
    assert_eq!(app.store().history()[2].operacao, Operacao::Venda);
    assert_eq!(app.store().history()[2].quantidade, 15);
    assert_eq!(last_message(&app), "Vendido 15 unidades do relógio A1");
}

#[test]
fn search_ranks_the_typed_code_first() {
    let mut app = app_with(&[("A1", 1), ("A2", 2), ("B9", 3)]);
    assert_eq!(press(&mut app, Tecla::Char('b')), Efeito::Nada);
    assert_eq!(app.modo(), Modo::Buscar);
    assert!(app.editing());
    // Ranked at once against the empty query.
    assert_eq!(
        app.buscar_results(),
        &vec![("A1".to_string(), 1, 2), ("A2".to_string(), 2, 2), ("B9".to_string(), 3, 2)]
    );
    type_text(&mut app, "A1");
    assert_eq!(
        app.buscar_results(),
        &vec![("A1".to_string(), 1, 0), ("A2".to_string(), 2, 1), ("B9".to_string(), 3, 2)]
    );
    assert_eq!(app.busca_relogios("A1"), *app.buscar_results());
    // Backspace ranks anew.
    press(&mut app, Tecla::Backspace);
    assert_eq!(app.input(), "A");
    assert_eq!(
        app.buscar_results(),
        &vec![("A1".to_string(), 1, 1), ("A2".to_string(), 2, 1), ("B9".to_string(), 3, 2)]
    );
    // Confirm freezes the list.
    press(&mut app, Tecla::Enter);
    assert!(!app.editing());
    assert_eq!(app.modo(), Modo::Buscar);
    assert_eq!(app.buscar_results().len(), 3);
    // Navigate and choose.
    press(&mut app, Tecla::Down);
    assert_eq!(app.buscar_cursor(), Cursor { offset: 0, selected: 1 });
    press(&mut app, Tecla::Enter);
    assert_eq!(app.chosen_relogio(), &Some("A2".to_string()));
    assert_eq!(
        last_message(&app),
        "Registro A2 selecionado. Aperte A ou V para escolher operação."
    );
    press(&mut app, Tecla::Char('A'));
    assert_eq!(app.modo(), Modo::Compra);
    assert_eq!(app.input(), "A2 ");
    assert_eq!(last_message(&app), "Operação 'A' selecionada para A2");
}

#[test]
fn search_cancel_returns_to_the_inventory() {
    let mut app = app_with(&[("A1", 1)]);
    press(&mut app, Tecla::Char('b'));
    type_text(&mut app, "zz");
    press(&mut app, Tecla::Esc);
    assert_eq!(app.modo(), Modo::Estoques);
    assert!(!app.editing());
    assert_eq!(app.input(), "");
}

#[test]
fn registration_form_edits_its_input() {
    let mut app = empty_app();
    press(&mut app, Tecla::Char('c'));
    type_text(&mut app, "xc");
    assert_eq!(app.input(), "xc");
    press(&mut app, Tecla::Backspace);
    press(&mut app, Tecla::Backspace);
    press(&mut app, Tecla::Backspace);
    assert_eq!(app.input(), "");
    assert_eq!(press(&mut app, Tecla::Up), Efeito::Nada);
    assert_eq!(press(&mut app, Tecla::Outra), Efeito::Nada);
    assert_eq!(app.modo(), Modo::Cadastro);
    assert!(app.editing());
}

#[test]
fn registration_of_a_malformed_line_changes_no_item() {
    for (line, message) in [
        ("A1", "Formato incorreto. codigo quantidade"),
        ("", "Formato incorreto. codigo quantidade"),
        ("A1 1 2", "Formato incorreto. codigo quantidade"),
        ("A1 dez", "Quantidade inválida!"),
    ] {
        let mut app = empty_app();
        press(&mut app, Tecla::Char('c'));
        type_text(&mut app, line);
        assert_eq!(press(&mut app, Tecla::Enter), Efeito::Nada);
        assert!(app.estoques_list().is_empty());
        assert_eq!(app.store().history_len(), 0);
        assert_eq!(last_message(&app), message);
        assert_eq!(app.modo(), Modo::Estoques);
        assert!(!app.editing());
        assert_eq!(app.input(), "");
    }
}

#[test]
fn registration_cancel_clears_the_selection() {
    let mut app = app_with(&[("A1", 1)]);
    press(&mut app, Tecla::Enter);
    assert_eq!(app.chosen_relogio(), &Some("A1".to_string()));
    press(&mut app, Tecla::Char('c'));
    type_text(&mut app, "B2 3");
    assert_eq!(press(&mut app, Tecla::Esc), Efeito::Nada);
    assert_eq!(app.modo(), Modo::Estoques);
    assert_eq!(app.input(), "");
    assert_eq!(app.chosen_relogio(), &None);
    assert_eq!(app.estoques_list(), &vec![item("A1", 1)]);
}

#[test]
fn forms_turn_down_malformed_lines() {
    for key in ['a', 'v'] {
        let mut app = app_with(&[("A1", 5)]);
        press(&mut app, Tecla::Enter);
        press(&mut app, Tecla::Char(key));
        type_text(&mut app, "x");
        assert_eq!(press(&mut app, Tecla::Enter), Efeito::Nada);
        assert_eq!(last_message(&app), "Quantidade inválida!");
        assert_eq!(app.estoques_list(), &vec![item("A1", 5)]);
        assert_eq!(app.modo(), Modo::Estoques);
        assert_eq!(app.chosen_relogio(), &None);

        press(&mut app, Tecla::Enter);
        press(&mut app, Tecla::Char(key));
        assert_eq!(press(&mut app, Tecla::Enter), Efeito::Nada);
        assert_eq!(last_message(&app), "Formato incorreto. codigo quantidade");
        assert_eq!(app.store().history_len(), 1);
    }
}

#[test]
fn form_cancel_does_nothing_to_the_store() {
    let mut app = app_with(&[("A1", 5)]);
    press(&mut app, Tecla::Enter);
    press(&mut app, Tecla::Char('v'));
    type_text(&mut app, "2");
    assert_eq!(press(&mut app, Tecla::Esc), Efeito::Nada);
    assert_eq!(app.modo(), Modo::Estoques);
    assert!(!app.editing());
    assert_eq!(app.input(), "");
    assert_eq!(app.chosen_relogio(), &None);
    assert_eq!(app.chosen_operation(), None);
    assert_eq!(app.estoques_list(), &vec![item("A1", 5)]);
}

#[test]
fn sale_of_an_unknown_code_is_told() {
    let mut app = app_with(&[("A1", 5)]);
    press(&mut app, Tecla::Enter);
    press(&mut app, Tecla::Char('v'));
    for _ in 0..3 {
        press(&mut app, Tecla::Backspace);
    }
    type_text(&mut app, "ZZ 1");
    assert_eq!(press(&mut app, Tecla::Enter), Efeito::Nada);
    assert_eq!(last_message(&app), "Relógio não encontrado!");
    assert_eq!(app.store().history_len(), 1);
}

#[test]
fn purchase_beyond_the_range_is_told() {
    let mut app = app_with(&[("A1", i32::MAX)]);
    press(&mut app, Tecla::Enter);
    press(&mut app, Tecla::Char('a'));
    type_text(&mut app, "1");
    assert_eq!(press(&mut app, Tecla::Enter), Efeito::Nada);
    assert_eq!(last_message(&app), "Quantidade inválida!");
    assert_eq!(app.estoques_list(), &vec![item("A1", i32::MAX)]);
    assert_eq!(app.store().history_len(), 1);
}

#[test]
fn operation_keys_need_a_chosen_code() {
    let mut app = app_with(&[("A1", 5)]);
    press(&mut app, Tecla::Char('a'));
    assert_eq!(app.modo(), Modo::Estoques);
    assert!(!app.editing());
    press(&mut app, Tecla::Char('v'));
    assert_eq!(app.modo(), Modo::Estoques);
    // Nor do they act in the history or the chart.
    press(&mut app, Tecla::Enter);
    press(&mut app, Tecla::Char('g'));
    assert_eq!(app.modo(), Modo::Grafico);
    press(&mut app, Tecla::Char('a'));
    assert_eq!(app.modo(), Modo::Grafico);
    press(&mut app, Tecla::Char('h'));
    press(&mut app, Tecla::Char('v'));
    assert_eq!(app.modo(), Modo::Historico);
}

#[test]
fn confirm_on_an_empty_inventory_chooses_nothing() {
    let mut app = empty_app();
    assert_eq!(press(&mut app, Tecla::Enter), Efeito::Nada);
    assert_eq!(app.chosen_relogio(), &None);
    assert_eq!(app.mensagens().len(), 1);
}

#[test]
fn cancel_while_viewing_clears_everything() {
    let mut app = app_with(&[("A1", 5)]);
    press(&mut app, Tecla::Enter);
    press(&mut app, Tecla::Char('h'));
    app.filtrar_historico("A1");
    assert_eq!(app.filtro(), &Some("A1".to_string()));
    assert_eq!(press(&mut app, Tecla::Esc), Efeito::Nada);
    assert_eq!(app.modo(), Modo::Estoques);
    assert_eq!(app.filtro(), &None);
    assert_eq!(app.chosen_relogio(), &None);
    assert_eq!(app.input(), "");
    assert_eq!(last_message(&app), "Seleção cancelada.");
}

#[test]
fn quit_only_while_not_typing() {
    let mut app = empty_app();
    assert_eq!(press(&mut app, Tecla::Char('x')), Efeito::Sair);
    assert_eq!(app.modo(), Modo::Estoques);
    for entry in ['h', 'g', 'b'] {
        let mut app = empty_app();
        press(&mut app, Tecla::Char(entry));
        if app.editing() {
            press(&mut app, Tecla::Enter);
        }
        assert_eq!(press(&mut app, Tecla::Char('x')), Efeito::Sair);
    }
    let mut app = empty_app();
    press(&mut app, Tecla::Char('c'));
    assert_eq!(press(&mut app, Tecla::Char('x')), Efeito::Nada);
    assert_eq!(app.input(), "x");
    // The capital letter is no quit key.
    let mut app = empty_app();
    assert_eq!(press(&mut app, Tecla::Char('X')), Efeito::Nada);
}

#[test]
fn history_view_filters_and_tabs() {
    let mut app = app_with(&[("A1", 10), ("B2", 10)]);
    app.comprar_relogio_em("A1".to_string(), 1, T.to_string());
    app.vender_relogio_em("B2".to_string(), 1, T.to_string());
    app.vender_relogio_em("A1".to_string(), 2, T.to_string());

    assert_eq!(press(&mut app, Tecla::Char('h')), Efeito::Nada);
    assert_eq!(app.modo(), Modo::Historico);
    assert!(!app.editing());
    assert_eq!(
        last_message(&app),
        "Histórico: ↑/↓ rola, ←/→ abas, P p/pesquisar, Enter p/filtrar, ESC p/sair."
    );
    assert_eq!(app.get_historico_atual_vec().len(), 5);

    // Tabs to the right and to the left, round the row.
    press(&mut app, Tecla::Down);
    assert_eq!(app.historico_cursor(), Cursor { offset: 0, selected: 1 });
    press(&mut app, Tecla::Right);
    assert_eq!(app.historico_tab(), HistoricoTab::Compras);
    assert_eq!(app.historico_cursor(), Cursor { offset: 0, selected: 0 });
    assert_eq!(app.get_historico_atual_vec().len(), 1);
    press(&mut app, Tecla::Right);
    assert_eq!(app.historico_tab(), HistoricoTab::Vendas);
    assert_eq!(app.get_historico_atual_vec().len(), 2);
    press(&mut app, Tecla::Right);
    assert_eq!(app.historico_tab(), HistoricoTab::Aquisicoes);
    assert_eq!(app.get_historico_atual_vec().len(), 2);
    press(&mut app, Tecla::Right);
    assert_eq!(app.historico_tab(), HistoricoTab::Todos);
    press(&mut app, Tecla::Left);
    assert_eq!(app.historico_tab(), HistoricoTab::Aquisicoes);
    press(&mut app, Tecla::Right);

    // Search of the history: suggestions, then a filter.
    press(&mut app, Tecla::Char('p'));
    assert!(app.editing());
    assert_eq!(
        app.historico_search_results(),
        &vec![("A1".to_string(), 2), ("B2".to_string(), 2)]
    );
    type_text(&mut app, " B2 ");
    assert_eq!(
        app.historico_search_results(),
        &vec![("B2".to_string(), 0), ("A1".to_string(), 2)]
    );
    press(&mut app, Tecla::Down);
    assert_eq!(app.historico_search_selected(), 1);
    press(&mut app, Tecla::Down);
    assert_eq!(app.historico_search_selected(), 1);
    press(&mut app, Tecla::Up);
    assert_eq!(app.historico_search_selected(), 0);
    press(&mut app, Tecla::Up);
    assert_eq!(app.historico_search_selected(), 0);
    assert_eq!(press(&mut app, Tecla::Enter), Efeito::Nada);
    assert!(!app.editing());
    assert_eq!(app.input(), "");
    assert_eq!(app.filtro(), &Some("B2".to_string()));
    assert_eq!(last_message(&app), "Histórico filtrado por B2 exibido");
    assert_eq!(app.get_historico_atual_vec().len(), 2);
    press(&mut app, Tecla::Right);
    assert_eq!(app.get_historico_atual_vec().len(), 0);
    press(&mut app, Tecla::Right);
    let rows = app.get_historico_atual_vec();
    assert_eq!(rows.len(), 1);
    assert_eq!(rows[0].codigo, "B2");
    assert_eq!(rows[0].operacao, Operacao::Venda);

    // Cancel of a new search takes the filter away.
    press(&mut app, Tecla::Char('P'));
    type_text(&mut app, "A");
    assert_eq!(press(&mut app, Tecla::Esc), Efeito::Nada);
    assert!(!app.editing());
    assert_eq!(app.input(), "");
    assert_eq!(app.filtro(), &None);
    assert_eq!(last_message(&app), "Filtro removido. Mostrando todo o histórico.");
    assert_eq!(app.modo(), Modo::Historico);
}

#[test]
fn history_filter_uses_the_first_suggestion() {
    let mut app = app_with(&[("A1", 10), ("B2", 10)]);
    press(&mut app, Tecla::Char('h'));
    press(&mut app, Tecla::Char('p'));
    type_text(&mut app, "B");
    press(&mut app, Tecla::Down);
    assert_eq!(app.historico_search_selected(), 1);
    press(&mut app, Tecla::Enter);
    assert_eq!(app.filtro(), &Some("B2".to_string()));
}

#[test]
fn history_filter_without_suggestions_uses_what_was_typed() {
    let mut app = empty_app();
    press(&mut app, Tecla::Char('h'));
    press(&mut app, Tecla::Char('p'));
    assert!(app.historico_search_results().is_empty());
    type_text(&mut app, " A1 ");
    press(&mut app, Tecla::Enter);
    assert_eq!(app.filtro(), &None);
    assert_eq!(last_message(&app), "Nenhum histórico encontrado para esse código!");

    press(&mut app, Tecla::Char('p'));
    type_text(&mut app, "   ");
    press(&mut app, Tecla::Enter);
    assert_eq!(last_message(&app), "Filtro removido. Mostrando todo o histórico.");
}

#[test]
fn history_entry_resets_the_cursor() {
    let mut app = app_with(&[("A1", 1), ("B2", 2), ("C3", 3)]);
    press(&mut app, Tecla::Char('h'));
    press(&mut app, Tecla::Down);
    press(&mut app, Tecla::Down);
    assert_eq!(app.historico_cursor(), Cursor { offset: 0, selected: 2 });
    let messages = app.mensagens().len();
    press(&mut app, Tecla::Char('h'));
    assert_eq!(app.historico_cursor(), Cursor { offset: 0, selected: 0 });
    assert_eq!(app.mensagens().len(), messages);
    press(&mut app, Tecla::Down);
    press(&mut app, Tecla::Up);
    press(&mut app, Tecla::Up);
    assert_eq!(app.historico_cursor(), Cursor { offset: 0, selected: 0 });
}

#[test]
fn tabs_do_not_move_outside_the_history() {
    let mut app = empty_app();
    press(&mut app, Tecla::Right);
    press(&mut app, Tecla::Left);
    assert_eq!(app.historico_tab(), HistoricoTab::Todos);
    press(&mut app, Tecla::Char('p'));
    assert!(!app.editing());
}

#[test]
fn inventory_cursor_scrolls_with_the_window() {
    let codes: Vec<(String, i32)> = (0..8).map(|i| (format!("C{}", i), i)).collect();
    let mut app = empty_app();
    for (code, quantity) in &codes {
        app.cadastrar_relogio_em(code.clone(), *quantity, T.to_string());
    }
    for _ in 0..5 {
        press(&mut app, Tecla::Down);
    }
    assert_eq!(app.estoques_cursor(), Cursor { offset: 1, selected: 5 });
    for _ in 0..10 {
        press(&mut app, Tecla::Down);
    }
    assert_eq!(app.estoques_cursor(), Cursor { offset: 3, selected: 7 });
    press(&mut app, Tecla::Enter);
    assert_eq!(app.chosen_relogio(), &Some("C7".to_string()));
    for _ in 0..10 {
        press(&mut app, Tecla::Up);
    }
    assert_eq!(app.estoques_cursor(), Cursor { offset: 0, selected: 0 });
}

#[test]
fn every_cursor_stays_in_its_list_under_any_keys() {
    let keys = [
        Tecla::Char('c'), Tecla::Char('b'), Tecla::Char('h'), Tecla::Char('g'), Tecla::Char('a'),
        Tecla::Char('v'), Tecla::Char('p'), Tecla::Char('1'), Tecla::Char(' '), Tecla::Char('A'),
        Tecla::Char('B'), Tecla::Char('2'), Tecla::Enter, Tecla::Enter, Tecla::Esc,
        Tecla::Backspace, Tecla::Up, Tecla::Down, Tecla::Down, Tecla::Left, Tecla::Right,
        Tecla::Outra,
    ];
    let mut app = app_with(&[("A1", 5), ("B2", 7), ("AB", 1)]);
    let mut seed: u32 = 2024;
    for _ in 0..6000 {
        seed = seed.wrapping_mul(1103515245).wrapping_add(12345);
        let key = keys[((seed >> 16) as usize) % keys.len()];
        let log_before = app.store().history_len();
        let messages_before = app.mensagens().len();
        let effect = press(&mut app, key);
        assert_ne!(effect, Efeito::Sair);
        let grown = app.store().history_len() - log_before;
        assert_eq!(grown, if effect == Efeito::Salvar { 1 } else { 0 });
        assert!(app.mensagens().len() >= messages_before);

        let lists = [
            (app.estoques_cursor(), app.estoques_list().len()),
            (app.cadastro_cursor(), app.cadastro_list().len()),
            (app.buscar_cursor(), app.buscar_results().len()),
            (app.historico_cursor(), app.get_historico_atual_vec().len()),
        ];
        for (cursor, n) in lists {
            if n > 0 {
                assert!(cursor.selected < n);
            }
            assert!(cursor.offset <= cursor.selected);
            assert!(cursor.selected < cursor.offset + 5);
        }
        let suggestions = app.historico_search_results().len();
        assert!(app.historico_search_selected() == 0 || app.historico_search_selected() < suggestions);
        assert_eq!(app.estoques_list(), &app.store().lookup_all());
        assert_eq!(app.cadastro_list(), &app.store().lookup_all());
        if app.chosen_operation().is_some() {
            assert!(app.chosen_relogio().is_some());
        }
        for r in app.estoques_list() {
            assert!(r.quantidade >= 0);
        }
    }
    assert!(app.store().history_len() > 3);
}

#[test]
fn direct_operations_report_their_outcome() {
    let mut app = empty_app();
    app.cadastrar_relogio_em("A1".to_string(), 10, T.to_string());
    assert_eq!(app.comprar_relogio_em("A1".to_string(), 5, T.to_string()), Outcome::Accepted);
    assert_eq!(app.vender_relogio_em("A1".to_string(), 20, T.to_string()), Outcome::Insufficient);
    assert_eq!(app.vender_relogio_em("ZZ".to_string(), 1, T.to_string()), Outcome::NotFound);
    assert_eq!(app.vender_relogio_em("A1".to_string(), 15, T.to_string()), Outcome::Accepted);
    assert_eq!(app.estoques_list(), &vec![item("A1", 0)]);
    assert_eq!(app.get_historico_por_codigo("A1").len(), 3);
    assert_eq!(app.get_historico_por_codigo("ZZ").len(), 0);
    assert_eq!(
        app.mensagens()[1..],
        [
            "Relógio A1 cadastrado com 10 unidades".to_string(),
            "Adicionado 5 unidades do relógio A1".to_string(),
            "Não há estoque suficiente para vender!".to_string(),
            "Relógio não encontrado!".to_string(),
            "Vendido 15 unidades do relógio A1".to_string(),
        ]
    );
}

fn is_timestamp(ts: &str) -> bool {
    let b = ts.as_bytes();
    b.len() == 19
        && b.iter().enumerate().all(|(i, c)| match i {
            4 | 7 => *c == b'-',
            10 => *c == b' ',
            13 | 16 => *c == b':',
            _ => c.is_ascii_digit(),
        })
}

#[test]
fn operations_made_now_carry_the_time_of_day() {
    let mut app = empty_app();
    app.cadastrar_relogio("A1".to_string(), 10);
    assert_eq!(app.comprar_relogio("A1".to_string(), 5), Outcome::Accepted);
    assert_eq!(app.vender_relogio("A1".to_string(), 1), Outcome::Accepted);
    assert_eq!(app.estoques_list(), &vec![item("A1", 14)]);
    let log = app.store().history();
    assert_eq!(log.len(), 3);
    for e in log {
        assert!(is_timestamp(&e.timestamp), "{:?}", e.timestamp);
        assert_eq!(e.codigo, "A1");
    }
    let days = app.agrupamento_por_dia();
    assert!(!days.is_empty());
    assert_eq!(days.iter().map(|d| d.1).sum::<usize>(), 1);
    assert_eq!(days.iter().map(|d| d.2).sum::<usize>(), 1);
}

#[test]
fn keys_pressed_now_carry_the_time_of_day() {
    let mut app = empty_app();
    assert_eq!(app.processar_tecla(Tecla::Char('c')), Efeito::Nada);
    for c in "A1 10".chars() {
        app.processar_tecla(Tecla::Char(c));
    }
    assert_eq!(app.processar_tecla(Tecla::Enter), Efeito::Salvar);
    assert_eq!(app.estoques_list(), &vec![item("A1", 10)]);
    assert!(is_timestamp(&app.store().history()[0].timestamp));
}

#[test]
fn chart_days_come_from_the_log() {
    let mut app = empty_app();
    app.cadastrar_relogio_em("A1".to_string(), 10, "2024-01-31 10:00:00".to_string());
    app.vender_relogio_em("A1".to_string(), 1, "2024-01-31 11:00:00".to_string());
    app.comprar_relogio_em("A1".to_string(), 1, "2024-02-01 09:00:00".to_string());
    app.comprar_relogio_em("A1".to_string(), 1, "2024-02-01 10:00:00".to_string());
    assert_eq!(
        app.agrupamento_por_dia(),
        vec![("31/01".to_string(), 1, 0), ("01/02".to_string(), 0, 2)]
    );
    assert_eq!(App::formata_data_ddmm("2024-02-01"), "01/02");
    assert_eq!(App::formata_data_ddmm("hoje"), "hoje");
}

#[test]
fn last_messages_start_where_they_should() {
    let mut app = empty_app();
    assert_eq!(app.ultimas_mensagens(5), 0);
    for i in 0..7 {
        app.cadastrar_relogio_em(format!("C{}", i), 1, T.to_string());
    }
    assert_eq!(app.mensagens().len(), 8);
    assert_eq!(app.ultimas_mensagens(5), 3);
    assert_eq!(app.ultimas_mensagens(8), 0);
    assert_eq!(app.ultimas_mensagens(0), 8);
}

#[test]
fn refreshing_the_lists_changes_nothing_when_they_are_fresh() {
    let mut app = app_with(&[("A1", 1), ("B2", 2)]);
    app.estoques_select_down();
    app.cadastro_select_down();
    app.atualiza_estoques_list();
    app.atualiza_cadastro_list();
    assert_eq!(app.estoques_cursor(), Cursor { offset: 0, selected: 1 });
    assert_eq!(app.cadastro_cursor(), Cursor { offset: 0, selected: 1 });
    app.estoques_select_up();
    app.cadastro_select_up();
    assert_eq!(app.estoques_cursor(), Cursor { offset: 0, selected: 0 });
    assert_eq!(app.cadastro_cursor(), Cursor { offset: 0, selected: 0 });
}

#[test]
fn direct_mode_changes() {
    let mut app = app_with(&[("A1", 1)]);
    app.filtrar_historico("A1");
    app.entra_modo_insercao(Modo::Buscar);
    assert_eq!(app.modo(), Modo::Buscar);
    assert!(app.editing());
    assert_eq!(app.filtro(), &None);
    app.atualizar_busca_results();
    assert_eq!(app.buscar_results().len(), 1);
    app.buscar_select_down();
    app.buscar_select_up();
    app.sai_modo_insercao();
    assert_eq!(app.modo(), Modo::Estoques);
    assert!(!app.editing());
    app.selecionar_registro("A1".to_string());
    app.cancelar_selecao();
    assert_eq!(app.chosen_relogio(), &None);
    app.escolher_operacao(Escolha::Comprar);
    assert_eq!(app.modo(), Modo::Estoques);
    app.selecionar_registro("A1".to_string());
    app.escolher_operacao(Escolha::Vender);
    assert_eq!(app.modo(), Modo::Venda);
    assert_eq!(app.chosen_operation(), Some(Escolha::Vender));
    assert_eq!(Escolha::Vender.letra(), 'V');
    assert_eq!(Escolha::Comprar.letra(), 'A');
    assert_eq!(Escolha::Comprar.modo(), Modo::Compra);
    app.historico_tab_next();
    app.historico_tab_prev();
    app.historico_select_down();
    app.historico_select_up();
    app.atualizar_historico_search_results();
    app.historico_search_down();
    app.historico_search_up();
    assert_eq!(app.historico_tab(), HistoricoTab::Todos);
}
