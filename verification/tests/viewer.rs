use arbitrage::model::Instrument;
use arbitrage::viewer::{
    client_instruments, delta_selection, instrument_names, instrument_options, is_request_allowed,
    parse_price_calculation, selected_prices_params, series_slots, ClientInstrument, DeltaParams,
    PriceCalculation, PricesParams,
};

fn instrument(id: Option<i16>, symbol: &str) -> Instrument {
    Instrument {
        id,
        symbol: symbol.to_string(),
        status: "Trading".to_string(),
        base_coin: "BTC".to_string(),
        quote_coin: "USDT".to_string(),
    }
}

#[test]
fn price_calculation_reads_zero_and_one() {
    assert_eq!(parse_price_calculation("0"), Ok(PriceCalculation::FilteredBest));
    assert_eq!(parse_price_calculation("1"), Ok(PriceCalculation::WeightedAverage));
    assert_eq!(parse_price_calculation("2"), Err("Unknown price calculation: 2".to_string()));
    assert_eq!("1".parse::<PriceCalculation>(), Ok(PriceCalculation::WeightedAverage));
    assert_eq!(PriceCalculation::default(), PriceCalculation::FilteredBest);
}

#[test]
fn client_instruments_default_a_missing_id_to_zero() {
    let list = client_instruments(&[instrument(Some(4), "AAA"), instrument(None, "BBB")]);
    assert_eq!(list.len(), 2);
    assert_eq!((list[0].id, list[0].symbol.as_str()), (4, "AAA"));
    assert_eq!((list[1].id, list[1].symbol.as_str()), (0, "BBB"));
}

#[test]
fn every_instrument_offers_its_asks_and_bids() {
    let options = instrument_options(&[
        ClientInstrument { id: 3, symbol: "SiZ5".to_string() },
        ClientInstrument { id: -2, symbol: "GLU6".to_string() },
    ]);
    let got: Vec<(&str, &str)> = options.iter().map(|o| (o.id.as_str(), o.label.as_str())).collect();
    assert_eq!(
        got,
        vec![("3.true", "SiZ5 ask"), ("3.false", "SiZ5 bid"), ("-2.true", "GLU6 ask"), ("-2.false", "GLU6 bid")]
    );
}

#[test]
fn selection_values_become_chart_parameters() {
    let values: Vec<String> = ["3.true", "7.false", "x.true", "12", "-5.true", "40000.false"]
        .iter()
        .map(|s| s.to_string())
        .collect();
    let params = selected_prices_params(&values);
    assert_eq!(params.instrument_ids_asks, vec![3, 0, -5]);
    assert_eq!(params.instrument_ids_bids, vec![7, 0]);
    assert!(is_request_allowed(&params));
    assert!(!is_request_allowed(&PricesParams::default()));
}

#[test]
fn selection_ids_read_like_str_parse() {
    let values: Vec<String> = ["+8.true", "-.true", ".true", "32767.true", "-32768.true", "32768.true"]
        .iter()
        .map(|s| s.to_string())
        .collect();
    let params = selected_prices_params(&values);
    let expected: Vec<i16> = ["+8", "-", "", "32767", "-32768", "32768"]
        .iter()
        .map(|s| s.parse::<i16>().unwrap_or_default())
        .collect();
    assert_eq!(params.instrument_ids_asks, expected);
    assert_eq!(expected, vec![8, 0, 0, 32767, -32768, 0]);
}

#[test]
fn series_names_follow_the_selected_ids() {
    let instruments = vec![instrument(Some(1), "AAA"), instrument(Some(2), "BBB"), instrument(Some(1), "CCC")];
    let params = PricesParams { instrument_ids_asks: vec![2, 9, 1], instrument_ids_bids: vec![1] };
    assert_eq!(instrument_names(&instruments, &params), vec!["BBB ask", "AAA ask", "AAA bid"]);
}

#[test]
fn delta_parameters_default_to_zero() {
    let p = DeltaParams::default();
    assert_eq!((p.instrument1, p.instrument2), (0, 0));
}

#[test]
fn choosing_every_entry_gives_back_every_instrument() {
    let instruments = vec![
        ClientInstrument { id: 3, symbol: "SiZ5".to_string() },
        ClientInstrument { id: -2, symbol: "GLU6".to_string() },
        ClientInstrument { id: 0, symbol: "X".to_string() },
    ];
    let values: Vec<String> = instrument_options(&instruments).into_iter().map(|o| o.id).collect();
    let params = selected_prices_params(&values);
    assert_eq!(params.instrument_ids_asks, vec![3, -2, 0]);
    assert_eq!(params.instrument_ids_bids, vec![3, -2, 0]);
}

#[test]
fn delta_chart_needs_two_different_instruments() {
    let p = delta_selection("3", "7").unwrap();
    assert_eq!((p.instrument1, p.instrument2), (3, 7));
    assert!(delta_selection("3", "3").is_none());
    assert!(delta_selection("", "7").is_none());
    assert!(delta_selection("x", "7").is_none());
    assert!(delta_selection("-4", "+4").is_some());
}

#[test]
fn series_go_to_the_entries_with_their_names() {
    let names: Vec<String> = ["SiZ5 ask", "GLU6 bid", "SiZ5 ask"].iter().map(|s| s.to_string()).collect();
    let labels: Vec<String> = ["GLU6 ask", "GLU6 bid", "SiZ5 ask", "SiZ5 bid"].iter().map(|s| s.to_string()).collect();
    assert_eq!(series_slots(&names, &labels), vec![2, 1, 0]);
    assert!(series_slots(&[], &labels).is_empty());
}
