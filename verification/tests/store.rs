use estoque_relogios::store::{Historico, Operacao, Outcome, Relogio, Store};

fn item(codigo: &str, quantidade: i32) -> Relogio {
    Relogio { codigo: codigo.to_string(), quantidade }
}

fn event(codigo: &str, quantidade: i32, operacao: Operacao, timestamp: &str) -> Historico {
    Historico {
        codigo: codigo.to_string(),
        quantidade,
        operacao,
        timestamp: timestamp.to_string(),
    }
}

#[test]
fn new_store_is_empty() {
    let s = Store::new();
    assert_eq!(s.len(), 0);
    assert!(s.lookup_all().is_empty());
    assert!(s.history().is_empty());
    assert_eq!(s.history_len(), 0);
}

#[test]
fn register_creates_item_and_logs() {
    let mut s = Store::new();
    s.register("A1".to_string(), 10, "2024-01-01 08:00:00".to_string());
    assert_eq!(s.lookup_all(), vec![item("A1", 10)]);
    assert_eq!(
        s.history(),
        &vec![event("A1", 10, Operacao::Cadastro, "2024-01-01 08:00:00")]
    );
}

#[test]
fn register_replaces_the_quantity() {
    let mut s = Store::new();
    s.register("A1".to_string(), 10, "t1 x".to_string());
    s.register("A1".to_string(), 3, "t2 x".to_string());
    assert_eq!(s.quantity_of("A1"), Some(3));
    assert_eq!(s.len(), 1);
    assert_eq!(s.history_len(), 2);
}

#[test]
fn register_accepts_a_negative_quantity() {
    let mut s = Store::new();
    s.register("A1".to_string(), -5, "t x".to_string());
    assert_eq!(s.quantity_of("A1"), Some(-5));
    assert_eq!(s.history_len(), 1);
}

#[test]
fn buy_adds_to_what_is_on_hand() {
    let mut s = Store::new();
    s.register("A1".to_string(), 10, "t1 x".to_string());
    assert_eq!(s.buy("A1".to_string(), 5, "t2 x".to_string()), Outcome::Accepted);
    assert_eq!(s.quantity_of("A1"), Some(15));
    assert_eq!(s.history()[1], event("A1", 5, Operacao::Compra, "t2 x"));
}

#[test]
fn buy_of_an_unknown_code_creates_the_item() {
    let mut s = Store::new();
    assert_eq!(s.buy("Z9".to_string(), 4, "t x".to_string()), Outcome::Accepted);
    assert_eq!(s.lookup_all(), vec![item("Z9", 4)]);
    assert_eq!(s.history(), &vec![event("Z9", 4, Operacao::Compra, "t x")]);
}

#[test]
fn buy_out_of_range_changes_nothing() {
    let mut s = Store::new();
    s.register("A1".to_string(), i32::MAX, "t1 x".to_string());
    assert_eq!(s.buy("A1".to_string(), 1, "t2 x".to_string()), Outcome::OutOfRange);
    assert_eq!(s.quantity_of("A1"), Some(i32::MAX));
    assert_eq!(s.history_len(), 1);
    s.register("B2".to_string(), i32::MIN, "t3 x".to_string());
    assert_eq!(s.buy("B2".to_string(), -1, "t4 x".to_string()), Outcome::OutOfRange);
    assert_eq!(s.history_len(), 2);
}

#[test]
fn sell_takes_from_what_is_on_hand() {
    let mut s = Store::new();
    s.register("A1".to_string(), 15, "t1 x".to_string());
    assert_eq!(s.sell("A1".to_string(), 15, "t2 x".to_string()), Outcome::Accepted);
    assert_eq!(s.quantity_of("A1"), Some(0));
    assert_eq!(s.len(), 1);
    assert_eq!(s.history()[1], event("A1", 15, Operacao::Venda, "t2 x"));
}

#[test]
fn sell_of_more_than_on_hand_is_turned_down() {
    let mut s = Store::new();
    s.register("A1".to_string(), 15, "t1 x".to_string());
    assert_eq!(s.sell("A1".to_string(), 20, "t2 x".to_string()), Outcome::Insufficient);
    assert_eq!(s.lookup_all(), vec![item("A1", 15)]);
    assert_eq!(s.history_len(), 1);
}

#[test]
fn sell_of_an_unknown_code_is_turned_down() {
    let mut s = Store::new();
    assert_eq!(s.sell("A1".to_string(), 1, "t x".to_string()), Outcome::NotFound);
    assert_eq!(s.len(), 0);
    assert_eq!(s.history_len(), 0);
}

#[test]
fn sell_out_of_range_changes_nothing() {
    let mut s = Store::new();
    s.register("A1".to_string(), i32::MAX, "t1 x".to_string());
    assert_eq!(s.sell("A1".to_string(), -1, "t2 x".to_string()), Outcome::OutOfRange);
    assert_eq!(s.quantity_of("A1"), Some(i32::MAX));
    assert_eq!(s.history_len(), 1);
}

#[test]
fn scenario_register_buy_sell() {
    let mut s = Store::new();
    s.register("A1".to_string(), 10, "2024-03-01 09:00:00".to_string());
    assert_eq!(s.lookup_all(), vec![item("A1", 10)]);
    assert_eq!(s.history_len(), 1);
    assert_eq!(s.history()[0].operacao, Operacao::Cadastro);

    assert_eq!(s.buy("A1".to_string(), 5, "2024-03-01 09:01:00".to_string()), Outcome::Accepted);
    assert_eq!(s.lookup_all(), vec![item("A1", 15)]);

    assert_eq!(
        s.sell("A1".to_string(), 20, "2024-03-01 09:02:00".to_string()),
        Outcome::Insufficient
    );
    assert_eq!(s.lookup_all(), vec![item("A1", 15)]);
    assert_eq!(s.history_len(), 2);

    assert_eq!(s.sell("A1".to_string(), 15, "2024-03-01 09:03:00".to_string()), Outcome::Accepted);
    assert_eq!(s.lookup_all(), vec![item("A1", 0)]);
    assert_eq!(s.history_len(), 3);
    assert_eq!(s.history()[2], event("A1", 15, Operacao::Venda, "2024-03-01 09:03:00"));
}

#[test]
fn log_grows_by_one_for_each_accepted_request() {
    let mut s = Store::new();
    let mut accepted = 0;
    let mut seed: u32 = 7;
    for step in 0..400 {
        seed = seed.wrapping_mul(1664525).wrapping_add(1013904223);
        let code = format!("C{}", (seed >> 20) % 5);
        let quantity = ((seed >> 8) % 30) as i32;
        let ts = format!("2024-01-01 00:00:{:02}", step % 60);
        let outcome = match (seed >> 28) % 3 {
            0 => {
                s.register(code, quantity, ts);
                Outcome::Accepted
            }
            1 => s.buy(code, quantity, ts),
            _ => s.sell(code, quantity, ts),
        };
        if outcome == Outcome::Accepted {
            accepted += 1;
        }
        assert_eq!(s.history_len(), accepted);
        for r in s.lookup_all() {
            assert!(r.quantidade >= 0);
        }
    }
    assert!(accepted > 0 && accepted < 400);
}

#[test]
fn lookup_all_is_in_ascending_order_of_code() {
    let mut s = Store::new();
    for code in ["C3", "A1", "B2", "A10", "a", "Z"] {
        s.register(code.to_string(), 1, "t x".to_string());
    }
    let codes: Vec<String> = s.lookup_all().into_iter().map(|r| r.codigo).collect();
    assert_eq!(codes, vec!["A1", "A10", "B2", "C3", "Z", "a"]);
}

#[test]
fn history_for_keeps_the_events_of_one_code_in_order() {
    let mut s = Store::new();
    s.register("A1".to_string(), 10, "t1 x".to_string());
    s.register("B2".to_string(), 10, "t2 x".to_string());
    s.buy("A1".to_string(), 1, "t3 x".to_string());
    s.sell("B2".to_string(), 1, "t4 x".to_string());
    s.sell("A1".to_string(), 2, "t5 x".to_string());
    assert_eq!(
        s.history_for("A1"),
        vec![
            event("A1", 10, Operacao::Cadastro, "t1 x"),
            event("A1", 1, Operacao::Compra, "t3 x"),
            event("A1", 2, Operacao::Venda, "t5 x"),
        ]
    );
    assert_eq!(s.history_for("A"), Vec::<Historico>::new());
    assert_eq!(s.history_for(""), Vec::<Historico>::new());
}

#[test]
fn from_records_keeps_the_later_of_two_items_with_one_code() {
    let s = Store::from_records(
        vec![item("B2", 2), item("A1", 1), item("B2", 9)],
        vec![event("X", 1, Operacao::Venda, "t x")],
    );
    assert_eq!(s.lookup_all(), vec![item("A1", 1), item("B2", 9)]);
    assert_eq!(s.history(), &vec![event("X", 1, Operacao::Venda, "t x")]);
}

#[test]
fn logged_codes_are_the_distinct_codes_of_the_log() {
    let s = Store::from_records(
        vec![],
        vec![
            event("B2", 1, Operacao::Venda, "t x"),
            event("A1", 1, Operacao::Compra, "t x"),
            event("B2", 1, Operacao::Cadastro, "t x"),
        ],
    );
    let codes = s.logged_codes();
    assert_eq!(codes.len(), 2);
    assert_eq!(codes.key_at(0), "A1");
    assert_eq!(codes.key_at(1), "B2");
}

#[test]
fn search_ranks_the_exact_code_first() {
    let mut s = Store::new();
    for code in ["A1", "A2", "B9"] {
        s.register(code.to_string(), 1, "t x".to_string());
    }
    let r = s.search("A1");
    assert_eq!(
        r,
        vec![("A1".to_string(), 1, 0), ("A2".to_string(), 1, 1), ("B9".to_string(), 1, 2)]
    );
}

#[test]
fn search_breaks_ties_by_code() {
    let mut s = Store::new();
    for (code, q) in [("C", 3), ("A", 1), ("B", 2), ("AB", 4)] {
        s.register(code.to_string(), q, "t x".to_string());
    }
    assert_eq!(
        s.search(""),
        vec![
            ("A".to_string(), 1, 1),
            ("B".to_string(), 2, 1),
            ("C".to_string(), 3, 1),
            ("AB".to_string(), 4, 2),
        ]
    );
    assert_eq!(
        s.search("AB"),
        vec![
            ("AB".to_string(), 4, 0),
            ("A".to_string(), 1, 1),
            ("B".to_string(), 2, 1),
            ("C".to_string(), 3, 2),
        ]
    );
}

#[test]
fn suggest_ranks_the_codes_of_the_log() {
    let mut s = Store::new();
    s.register("B9".to_string(), 1, "t x".to_string());
    s.register("A2".to_string(), 1, "t x".to_string());
    s.buy("A1".to_string(), 1, "t x".to_string());
    s.buy("A1".to_string(), 1, "t x".to_string());
    assert_eq!(
        s.suggest("A1"),
        vec![("A1".to_string(), 0), ("A2".to_string(), 1), ("B9".to_string(), 2)]
    );
    assert_eq!(Store::new().suggest("A1"), Vec::<(String, usize)>::new());
}

#[test]
fn operation_labels_go_both_ways() {
    for op in [Operacao::Cadastro, Operacao::Compra, Operacao::Venda] {
        assert_eq!(Operacao::from_rotulo(op.rotulo()), Some(op));
    }
    assert_eq!(Operacao::Cadastro.rotulo(), "CADASTRO");
    assert_eq!(Operacao::Compra.rotulo(), "COMPRA");
    assert_eq!(Operacao::Venda.rotulo(), "VENDA");
    assert_eq!(Operacao::from_rotulo("venda"), None);
    assert_eq!(Operacao::from_rotulo(""), None);
    assert_eq!(Operacao::from_rotulo("COMPRAS"), None);
}

#[test]
fn clones_of_records_are_equal_to_them() {
    let r = item("A1", 3);
    assert_eq!(r.clone(), r);
    let h = event("A1", 3, Operacao::Venda, "2024-01-01 00:00:00");
    assert_eq!(h.clone(), h);
}
