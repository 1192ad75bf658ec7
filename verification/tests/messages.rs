use estoque_relogios::messages::{
    bad_format_line, bad_quantity_line, bought_line, filter_removed_line, history_filtered_line,
    history_help_line, insufficient_line, no_history_line, not_found_line, operation_chosen_line,
    push_decimal, registered_line, row_selected_line, selection_cancelled_line, sold_line,
    welcome_line,
};

#[test]
fn push_decimal_writes_as_the_standard_library_does() {
    for n in [0, 1, 9, 10, 11, 99, 100, 12345, -1, -9, -10, -12345, i32::MAX, i32::MIN, i32::MIN + 1] {
        let mut s = String::from("n=");
        push_decimal(&mut s, n);
        assert_eq!(s, format!("n={}", n));
    }
}

#[test]
fn lines_with_a_code_and_a_quantity() {
    assert_eq!(registered_line("A1", 10), "Relógio A1 cadastrado com 10 unidades");
    assert_eq!(sold_line("A1", 15), "Vendido 15 unidades do relógio A1");
    assert_eq!(bought_line("A1", 5), "Adicionado 5 unidades do relógio A1");
    assert_eq!(registered_line("X", -3), "Relógio X cadastrado com -3 unidades");
}

#[test]
fn lines_with_a_code() {
    assert_eq!(
        row_selected_line("A1"),
        "Registro A1 selecionado. Aperte A ou V para escolher operação."
    );
    assert_eq!(operation_chosen_line('A', "A1"), "Operação 'A' selecionada para A1");
    assert_eq!(operation_chosen_line('V', "B2"), "Operação 'V' selecionada para B2");
    assert_eq!(history_filtered_line("A1"), "Histórico filtrado por A1 exibido");
}

#[test]
fn fixed_lines() {
    assert_eq!(welcome_line(), "Bem-vindo ao Sistema de Relógios (Estoque)!");
    assert_eq!(insufficient_line(), "Não há estoque suficiente para vender!");
    assert_eq!(not_found_line(), "Relógio não encontrado!");
    assert_eq!(bad_quantity_line(), "Quantidade inválida!");
    assert_eq!(bad_format_line(), "Formato incorreto. codigo quantidade");
    assert_eq!(selection_cancelled_line(), "Seleção cancelada.");
    assert_eq!(filter_removed_line(), "Filtro removido. Mostrando todo o histórico.");
    assert_eq!(no_history_line(), "Nenhum histórico encontrado para esse código!");
    assert_eq!(
        history_help_line(),
        "Histórico: ↑/↓ rola, ←/→ abas, P p/pesquisar, Enter p/filtrar, ESC p/sair."
    );
}
