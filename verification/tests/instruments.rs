use arbitrage::model::{find_instrument_id, Instrument};

fn instrument(id: Option<i16>, symbol: &str) -> Instrument {
    Instrument {
        id,
        symbol: symbol.to_string(),
        status: "Trading".to_string(),
        base_coin: "BTC".to_string(),
        quote_coin: "USDT".to_string(),
    }
}

#[test]
fn find_instrument_id_takes_the_first_match() {
    let list = vec![instrument(Some(1), "AAA"), instrument(Some(2), "BBB"), instrument(Some(3), "BBB")];
    assert_eq!(find_instrument_id(&list, "BBB"), Some(2));
    assert_eq!(find_instrument_id(&list, "CCC"), None);
}

#[test]
fn find_instrument_id_without_id_is_none() {
    let list = vec![instrument(None, "AAA"), instrument(Some(2), "AAA")];
    assert_eq!(find_instrument_id(&list, "AAA"), None);
}
