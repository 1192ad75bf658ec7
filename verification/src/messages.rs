//! The lines that the application writes to its log of messages.

use vstd::prelude::*;

verus! {

/// The character that writes the digit `d`.
pub open spec fn digit_char(d: int) -> char {
    ('0' as int + d) as char
}

/// A natural number in base ten, without leading zeros.
pub open spec fn decimal_nat(n: nat) -> Seq<char>
    decreases n,
{
    if n < 10 {
        seq![digit_char(n as int)]
    } else {
        decimal_nat(n / 10).push(digit_char((n % 10) as int))
    }
}

/// A whole number in base ten, with `-` before a negative one.
pub open spec fn decimal(n: int) -> Seq<char> {
    if n < 0 {
        seq!['-'] + decimal_nat((-n) as nat)
    } else {
        decimal_nat(n as nat)
    }
}

/// The greeting that opens the log.
pub open spec fn welcome() -> Seq<char> {
    "Bem-vindo ao Sistema de Relógios (Estoque)!"@
}

/// What is written when a code is registered.
pub open spec fn registered(code: Seq<char>, quantity: i32) -> Seq<char> {
    "Relógio "@ + code + " cadastrado com "@ + decimal(quantity as int) + " unidades"@
}

/// What is written when a sale is accepted.
pub open spec fn sold(code: Seq<char>, quantity: i32) -> Seq<char> {
    "Vendido "@ + decimal(quantity as int) + " unidades do relógio "@ + code
}

/// What is written when a purchase is accepted.
pub open spec fn bought(code: Seq<char>, quantity: i32) -> Seq<char> {
    "Adicionado "@ + decimal(quantity as int) + " unidades do relógio "@ + code
}

/// What is written when more is to be sold than is on hand.
pub open spec fn insufficient() -> Seq<char> {
    "Não há estoque suficiente para vender!"@
}

/// What is written when a code to be sold is not in the store.
pub open spec fn not_found() -> Seq<char> {
    "Relógio não encontrado!"@
}

/// What is written when a quantity is no number, or too large.
pub open spec fn bad_quantity() -> Seq<char> {
    "Quantidade inválida!"@
}

/// What is written when a line does not hold a code and a quantity.
pub open spec fn bad_format() -> Seq<char> {
    "Formato incorreto. codigo quantidade"@
}

/// What is written when a row is selected.
pub open spec fn row_selected(code: Seq<char>) -> Seq<char> {
    "Registro "@ + code + " selecionado. Aperte A ou V para escolher operação."@
}

/// What is written when the selection is given up.
pub open spec fn selection_cancelled() -> Seq<char> {
    "Seleção cancelada."@
}

/// What is written when an operation is chosen for the selected code.
pub open spec fn operation_chosen(letter: char, code: Seq<char>) -> Seq<char> {
    "Operação '"@ + seq![letter] + "' selecionada para "@ + code
}

/// What is written when the filter of the history is taken away.
pub open spec fn filter_removed() -> Seq<char> {
    "Filtro removido. Mostrando todo o histórico."@
}

/// What is written when the history holds nothing of a code.
pub open spec fn no_history() -> Seq<char> {
    "Nenhum histórico encontrado para esse código!"@
}

/// What is written when the history is filtered by a code.
pub open spec fn history_filtered(code: Seq<char>) -> Seq<char> {
    "Histórico filtrado por "@ + code + " exibido"@
}

/// The help line of the history view.
pub open spec fn history_help() -> Seq<char> {
    "Histórico: ↑/↓ rola, ←/→ abas, P p/pesquisar, Enter p/filtrar, ESC p/sair."@
}

/// Appends the digits of `n` to `s`.
fn push_decimal_nat(s: &mut String, n: u32)
    ensures
        final(s)@ == old(s)@ + decimal_nat(n as nat),
    decreases n,
{
    if n >= 10 {
        push_decimal_nat(s, n / 10);
    }
    let d = (n % 10) as u8;
    s.push((48u8 + d) as char);
    assert(final(s)@ =~= old(s)@ + decimal_nat(n as nat));
}

/// Appends `n`, written in base ten, to `s`.
pub fn push_decimal(s: &mut String, n: i32)
    ensures
        final(s)@ == old(s)@ + decimal(n as int),
{
    if n < 0 {
        s.push('-');
        // The least number has no positive counterpart in 32 bits with a sign.
        let m: u32 = if n == i32::MIN {
            0x8000_0000
        } else {
            (-n) as u32
        };
        push_decimal_nat(s, m);
        assert(final(s)@ =~= old(s)@ + decimal(n as int));
    } else {
        push_decimal_nat(s, n as u32);
    }
}

/// The greeting that opens the log.
pub fn welcome_line() -> (r: String)
    ensures
        r@ == welcome(),
{
    String::from_str("Bem-vindo ao Sistema de Relógios (Estoque)!")
}

/// The line for a registration.
pub fn registered_line(code: &str, quantity: i32) -> (r: String)
    ensures
        r@ == registered(code@, quantity),
{
    let mut r = String::from_str("Relógio ");
    r.append(code);
    r.append(" cadastrado com ");
    push_decimal(&mut r, quantity);
    r.append(" unidades");
    r
}

/// The line for a sale.
pub fn sold_line(code: &str, quantity: i32) -> (r: String)
    ensures
        r@ == sold(code@, quantity),
{
    let mut r = String::from_str("Vendido ");
    push_decimal(&mut r, quantity);
    r.append(" unidades do relógio ");
    r.append(code);
    r
}

/// The line for a purchase.
pub fn bought_line(code: &str, quantity: i32) -> (r: String)
    ensures
        r@ == bought(code@, quantity),
{
    let mut r = String::from_str("Adicionado ");
    push_decimal(&mut r, quantity);
    r.append(" unidades do relógio ");
    r.append(code);
    r
}

/// The line for a sale of more than is on hand.
pub fn insufficient_line() -> (r: String)
    ensures
        r@ == insufficient(),
{
    String::from_str("Não há estoque suficiente para vender!")
}

/// The line for a sale of a code that is not in the store.
pub fn not_found_line() -> (r: String)
    ensures
        r@ == not_found(),
{
    String::from_str("Relógio não encontrado!")
}

/// The line for a quantity that is no number, or too large.
pub fn bad_quantity_line() -> (r: String)
    ensures
        r@ == bad_quantity(),
{
    String::from_str("Quantidade inválida!")
}

/// The line for a form that does not hold a code and a quantity.
pub fn bad_format_line() -> (r: String)
    ensures
        r@ == bad_format(),
{
    String::from_str("Formato incorreto. codigo quantidade")
}

/// The line for a selected row.
pub fn row_selected_line(code: &str) -> (r: String)
    ensures
        r@ == row_selected(code@),
{
    let mut r = String::from_str("Registro ");
    r.append(code);
    r.append(" selecionado. Aperte A ou V para escolher operação.");
    r
}

/// The line for a selection that is given up.
pub fn selection_cancelled_line() -> (r: String)
    ensures
        r@ == selection_cancelled(),
{
    String::from_str("Seleção cancelada.")
}

/// The line for an operation chosen for the selected code.
pub fn operation_chosen_line(letter: char, code: &str) -> (r: String)
    ensures
        r@ == operation_chosen(letter, code@),
{
    let mut r = String::from_str("Operação '");
    r.push(letter);
    r.append("' selecionada para ");
    r.append(code);
    r
}

/// The line for a filter that is taken away.
pub fn filter_removed_line() -> (r: String)
    ensures
        r@ == filter_removed(),
{
    String::from_str("Filtro removido. Mostrando todo o histórico.")
}

/// The line for a code of which the history holds nothing.
pub fn no_history_line() -> (r: String)
    ensures
        r@ == no_history(),
{
    String::from_str("Nenhum histórico encontrado para esse código!")
}

/// The line for a history filtered by a code.
pub fn history_filtered_line(code: &str) -> (r: String)
    ensures
        r@ == history_filtered(code@),
{
    let mut r = String::from_str("Histórico filtrado por ");
    r.append(code);
    r.append(" exibido");
    r
}

/// The help line of the history view.
pub fn history_help_line() -> (r: String)
    ensures
        r@ == history_help(),
{
    String::from_str("Histórico: ↑/↓ rola, ←/→ abas, P p/pesquisar, Enter p/filtrar, ESC p/sair.")
}

} // verus!
