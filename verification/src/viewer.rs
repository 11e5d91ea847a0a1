//! The web viewer's data: the instruments offered for selection, the chart parameters,
//! and the names of the selected price series.
use crate::model::Instrument;
use crate::text::{
    all_digits, before_dot, before_dot_len, chars_end_with, chars_of, ends_with, int_text,
    integer_text_value, lemma_before_dot_concat, lemma_int_text_value, parse_i16_prefix,
    parse_i16_spec, push_i16,
};
use vstd::prelude::*;
use vstd::string::{StrSliceExecFns, StringExecFns};

verus! {

/// An instrument as the viewer lists it.
#[derive(Clone, Debug)]
pub struct ClientInstrument {
    pub id: i16,
    pub symbol: String,
}

/// How a price is taken from an order-book side.
#[derive(Clone, Copy, Debug, Default, PartialEq, Eq, Structural)]
pub enum PriceCalculation {
    #[default]
    FilteredBest,
    WeightedAverage,
}

/// The instruments whose asks and bids the price chart shows.
#[derive(Clone, Debug, Default)]
pub struct PricesParams {
    pub instrument_ids_asks: Vec<i16>,
    pub instrument_ids_bids: Vec<i16>,
}

/// The two instruments whose spread the delta chart shows.
#[derive(Clone, Copy, Debug, Default)]
pub struct DeltaParams {
    pub instrument1: i16,
    pub instrument2: i16,
}

/// One entry of the instrument selection: its value and its label.
#[derive(Clone, PartialEq)]
pub struct InstrumentOption {
    pub id: String,
    pub label: String,
}

/// The price calculation that a text names: "0" and "1".
pub open spec fn price_calculation_of(s: Seq<char>) -> Option<PriceCalculation> {
    if s == seq!['0'] {
        Some(PriceCalculation::FilteredBest)
    } else if s == seq!['1'] {
        Some(PriceCalculation::WeightedAverage)
    } else {
        None
    }
}

/// Reads a price calculation: "0" is the filtered best price, "1" the weighted average;
/// any other text is an error that names it.
pub fn parse_price_calculation(s: &str) -> (r: Result<PriceCalculation, String>)
    ensures
        r matches Ok(p) ==> price_calculation_of(s@) == Some(p),
        r matches Err(e) ==> price_calculation_of(s@) is None && e@
            == "Unknown price calculation: "@ + s@,
{
    if s.unicode_len() == 1 {
        let c = s.get_char(0);
        if c == '0' {
            assert(s@ =~= seq!['0']);
            return Ok(PriceCalculation::FilteredBest);
        } else if c == '1' {
            assert(s@ =~= seq!['1']);
            return Ok(PriceCalculation::WeightedAverage);
        }
    }
    let mut e = String::from_str("Unknown price calculation: ");
    e.append(s);
    Err(e)
}

impl std::str::FromStr for PriceCalculation {
    type Err = String;

    fn from_str(s: &str) -> (r: Result<PriceCalculation, String>)
        ensures
            r matches Ok(p) ==> price_calculation_of(s@) == Some(p),
            r matches Err(e) ==> price_calculation_of(s@) is None && e@
                == "Unknown price calculation: "@ + s@,
    {
        parse_price_calculation(s)
    }
}

/// The id the viewer shows for an instrument: its id, or 0 where it has none.
pub open spec fn client_id(id: Option<i16>) -> i16 {
    match id {
        Some(x) => x,
        None => 0,
    }
}

/// The instruments as the viewer lists them: each id (0 where there is none) with its
/// symbol, in order.
pub fn client_instruments(instruments: &[Instrument]) -> (r: Vec<ClientInstrument>)
    ensures
        r@.len() == instruments@.len(),
        forall|i: int|
            0 <= i < instruments@.len() ==> #[trigger] r@[i].id == client_id(instruments@[i].id)
                && r@[i].symbol@ == instruments@[i].symbol@,
{
    let mut r: Vec<ClientInstrument> = Vec::new();
    let mut i: usize = 0;
    while i < instruments.len()
        invariant
            i <= instruments@.len(),
            r@.len() == i,
            forall|j: int|
                0 <= j < i ==> #[trigger] r@[j].id == client_id(instruments@[j].id)
                    && r@[j].symbol@ == instruments@[j].symbol@,
        decreases instruments@.len() - i,
    {
        let id = match instruments[i].id {
            Some(x) => x,
            None => 0,
        };
        r.push(ClientInstrument { id, symbol: instruments[i].symbol.clone() });
        i = i + 1;
    }
    r
}

/// The value of a selection entry: the id, then ".true" for the asks or ".false" for
/// the bids.
pub open spec fn option_value(id: i16, ask: bool) -> Seq<char> {
    int_text(id as int) + if ask {
        ".true"@
    } else {
        ".false"@
    }
}

/// The label of a selection entry: the symbol, then " ask" or " bid".
pub open spec fn option_label(symbol: Seq<char>, ask: bool) -> Seq<char> {
    symbol + if ask {
        " ask"@
    } else {
        " bid"@
    }
}

/// Whether a selection entry is the one for the asks or the bids of an instrument.
pub open spec fn is_option_for(o: InstrumentOption, inst: ClientInstrument, ask: bool) -> bool {
    o.id@ == option_value(inst.id, ask) && o.label@ == option_label(inst.symbol@, ask)
}

fn make_option(inst: &ClientInstrument, ask: bool) -> (o: InstrumentOption)
    ensures
        is_option_for(o, *inst, ask),
{
    let mut id = String::new();
    push_i16(&mut id, inst.id);
    let mut label = inst.symbol.clone();
    if ask {
        id.append(".true");
        label.append(" ask");
    } else {
        id.append(".false");
        label.append(" bid");
    }
    InstrumentOption { id, label }
}

/// The selection entries of the price chart: for each instrument, its asks then its
/// bids.
pub fn instrument_options(instruments: &[ClientInstrument]) -> (r: Vec<InstrumentOption>)
    ensures
        r@.len() == 2 * instruments@.len(),
        forall|i: int|
            0 <= i < instruments@.len() ==> is_option_for(r@[2 * i], #[trigger] instruments@[i], true)
                && is_option_for(r@[2 * i + 1], instruments@[i], false),
{
    let mut r: Vec<InstrumentOption> = Vec::new();
    let mut i: usize = 0;
    while i < instruments.len()
        invariant
            i <= instruments@.len(),
            r@.len() == 2 * i,
            forall|j: int|
                0 <= j < i ==> is_option_for(r@[2 * j], #[trigger] instruments@[j], true)
                    && is_option_for(r@[2 * j + 1], instruments@[j], false),
        decreases instruments@.len() - i,
    {
        r.push(make_option(&instruments[i], true));
        r.push(make_option(&instruments[i], false));
        i = i + 1;
    }
    r
}

/// The instrument id that a selection value names: the `i16` before its first '.', or 0
/// where that part is not one.
pub open spec fn selected_id(value: Seq<char>) -> i16 {
    match parse_i16_spec(before_dot(value)) {
        Some(v) => v,
        None => 0,
    }
}

/// The ids of the selection values that end with `suffix`, in order.
pub open spec fn selected_ids(values: Seq<Seq<char>>, suffix: Seq<char>) -> Seq<i16>
    decreases values.len(),
{
    if values.len() == 0 {
        Seq::empty()
    } else if ends_with(values.last(), suffix) {
        selected_ids(values.drop_last(), suffix).push(selected_id(values.last()))
    } else {
        selected_ids(values.drop_last(), suffix)
    }
}

/// The views of a list of strings.
pub open spec fn string_views(v: Seq<String>) -> Seq<Seq<char>> {
    v.map_values(|s: String| s@)
}

fn selected_id_of(value: &Vec<char>) -> (r: i16)
    ensures
        r == selected_id(value@),
{
    let end = before_dot_len(value);
    match parse_i16_prefix(value, end) {
        Some(v) => v,
        None => 0,
    }
}

/// The chart parameters of a selection: the ids of the values ending with "true" are
/// the asks, those of the values ending with "false" the bids, each in order; an id
/// that does not read as an `i16` counts as 0.
pub fn selected_prices_params(values: &[String]) -> (r: PricesParams)
    ensures
        r.instrument_ids_asks@ == selected_ids(
            string_views(values@),
            seq!['t', 'r', 'u', 'e'],
        ),
        r.instrument_ids_bids@ == selected_ids(
            string_views(values@),
            seq!['f', 'a', 'l', 's', 'e'],
        ),
{
    let yes: Vec<char> = vec!['t', 'r', 'u', 'e'];
    let no: Vec<char> = vec!['f', 'a', 'l', 's', 'e'];
    let mut asks: Vec<i16> = Vec::new();
    let mut bids: Vec<i16> = Vec::new();
    let mut i: usize = 0;
    while i < values.len()
        invariant
            i <= values@.len(),
            yes@ == seq!['t', 'r', 'u', 'e'],
            no@ == seq!['f', 'a', 'l', 's', 'e'],
            asks@ == selected_ids(string_views(values@.take(i as int)), yes@),
            bids@ == selected_ids(string_views(values@.take(i as int)), no@),
        decreases values@.len() - i,
    {
        let ghost before = string_views(values@.take(i as int));
        assert(string_views(values@.take(i + 1)).drop_last() =~= before);
        assert(string_views(values@.take(i + 1)).last() == values@[i as int]@);
        let chars = chars_of(values[i].as_str());
        if chars_end_with(&chars, &yes) {
            asks.push(selected_id_of(&chars));
        }
        if chars_end_with(&chars, &no) {
            bids.push(selected_id_of(&chars));
        }
        i = i + 1;
    }
    assert(values@.take(values@.len() as int) =~= values@);
    PricesParams { instrument_ids_asks: asks, instrument_ids_bids: bids }
}

/// Whether a request can be made with these parameters: some asks or bids are chosen.
pub fn is_request_allowed(params: &PricesParams) -> (r: bool)
    ensures
        r == (params.instrument_ids_asks@.len() > 0 || params.instrument_ids_bids@.len() > 0),
{
    params.instrument_ids_asks.len() > 0 || params.instrument_ids_bids.len() > 0
}

/// Whether instrument `k` of the list is the first with id `id`.
pub open spec fn first_with_id(instruments: Seq<Instrument>, id: i16, k: int) -> bool {
    &&& 0 <= k < instruments.len()
    &&& instruments[k].id == Some(id)
    &&& forall|j: int| 0 <= j < k ==> #[trigger] instruments[j].id != Some(id)
}

/// The name of the series of instrument `id` where the list has it: the symbol of the
/// first instrument with that id, then " ask" or " bid".
pub open spec fn series_name(instruments: Seq<Instrument>, id: i16, ask: bool) -> Option<Seq<char>> {
    if exists|k: int| first_with_id(instruments, id, k) {
        let k = choose|k: int| first_with_id(instruments, id, k);
        Some(option_label(instruments[k].symbol@, ask))
    } else {
        None
    }
}

/// The names of the series for the ids, those the list has, in order.
pub open spec fn series_names(instruments: Seq<Instrument>, ids: Seq<i16>, ask: bool) -> Seq<
    Seq<char>,
>
    decreases ids.len(),
{
    if ids.len() == 0 {
        Seq::empty()
    } else {
        match series_name(instruments, ids.last(), ask) {
            Some(n) => series_names(instruments, ids.drop_last(), ask).push(n),
            None => series_names(instruments, ids.drop_last(), ask),
        }
    }
}

proof fn lemma_first_with_id_unique(instruments: Seq<Instrument>, id: i16, k: int, m: int)
    requires
        first_with_id(instruments, id, k),
        first_with_id(instruments, id, m),
    ensures
        k == m,
{
    if k < m {
        assert(instruments[k].id != Some(id));
    } else if m < k {
        assert(instruments[m].id != Some(id));
    }
}

fn find_series_name(instruments: &[Instrument], id: i16, ask: bool) -> (r: Option<String>)
    ensures
        match r {
            Some(s) => series_name(instruments@, id, ask) == Some(s@),
            None => series_name(instruments@, id, ask) is None,
        },
{
    let mut i: usize = 0;
    while i < instruments.len()
        invariant
            i <= instruments@.len(),
            forall|j: int| 0 <= j < i ==> #[trigger] instruments@[j].id != Some(id),
        decreases instruments@.len() - i,
    {
        let found = match instruments[i].id {
            Some(x) => x == id,
            None => false,
        };
        if found {
            let mut name = instruments[i].symbol.clone();
            if ask {
                name.append(" ask");
            } else {
                name.append(" bid");
            }
            proof {
                assert(first_with_id(instruments@, id, i as int));
                let k = choose|k: int| first_with_id(instruments@, id, k);
                lemma_first_with_id_unique(instruments@, id, k, i as int);
            }
            return Some(name);
        }
        i = i + 1;
    }
    None
}

/// The names of the selected price series: for each ask id, then each bid id, in order,
/// the symbol of the first instrument with that id and " ask" or " bid"; an id that no
/// instrument has gives no name.
pub fn instrument_names(instruments: &[Instrument], params: &PricesParams) -> (r: Vec<String>)
    ensures
        string_views(r@) == series_names(instruments@, params.instrument_ids_asks@, true)
            + series_names(instruments@, params.instrument_ids_bids@, false),
{
    let mut r: Vec<String> = Vec::new();
    let mut i: usize = 0;
    let asks = &params.instrument_ids_asks;
    let bids = &params.instrument_ids_bids;
    while i < asks.len()
        invariant
            i <= asks@.len(),
            string_views(r@) == series_names(instruments@, asks@.take(i as int), true),
        decreases asks@.len() - i,
    {
        assert(asks@.take(i + 1).drop_last() =~= asks@.take(i as int));
        match find_series_name(instruments, asks[i], true) {
            Some(name) => {
                r.push(name);
                assert(string_views(r@) =~= series_names(instruments@, asks@.take(i + 1), true));
            },
            None => {},
        }
        i = i + 1;
    }
    assert(asks@.take(asks@.len() as int) =~= asks@);
    let ghost first = string_views(r@);
    let mut j: usize = 0;
    while j < bids.len()
        invariant
            j <= bids@.len(),
            first == series_names(instruments@, asks@, true),
            string_views(r@) == first + series_names(instruments@, bids@.take(j as int), false),
        decreases bids@.len() - j,
    {
        assert(bids@.take(j + 1).drop_last() =~= bids@.take(j as int));
        match find_series_name(instruments, bids[j], false) {
            Some(name) => {
                let ghost old_views = string_views(r@);
                let ghost n = name@;
                r.push(name);
                assert(string_views(r@) =~= old_views.push(n));
                assert(string_views(r@) =~= first + series_names(
                    instruments@,
                    bids@.take(j + 1),
                    false,
                ));
            },
            None => {},
        }
        j = j + 1;
    }
    assert(bids@.take(bids@.len() as int) =~= bids@);
    r
}

/// The selection values of the instruments' entries, in the order of
/// `instrument_options`: the asks, then the bids of each instrument.
pub open spec fn option_values(instruments: Seq<ClientInstrument>) -> Seq<Seq<char>>
    decreases instruments.len(),
{
    if instruments.len() == 0 {
        Seq::empty()
    } else {
        option_values(instruments.drop_last()).push(
            option_value(instruments.last().id, true),
        ).push(option_value(instruments.last().id, false))
    }
}

/// The ids of the instruments, in order.
pub open spec fn instrument_ids(instruments: Seq<ClientInstrument>) -> Seq<i16> {
    instruments.map_values(|c: ClientInstrument| c.id)
}

proof fn lemma_option_value(id: i16, ask: bool)
    ensures
        selected_id(option_value(id, ask)) == id,
        ends_with(option_value(id, ask), seq!['t', 'r', 'u', 'e']) == ask,
        ends_with(option_value(id, ask), seq!['f', 'a', 'l', 's', 'e']) == !ask,
{
    reveal_strlit(".true");
    reveal_strlit(".false");
    let t = int_text(id as int);
    let suffix = if ask {
        ".true"@
    } else {
        ".false"@
    };
    lemma_int_text_value(id as int);
    assert forall|i: int| 0 <= i < t.len() implies t[i] != '.' by {
        if i > 0 {
            assert(t[i] == t.drop_first()[i - 1]);
        }
        if i == 0 && t[0] == '.' {
            if integer_text_value(t) is Some {
                assert(all_digits(t.drop_first()) || all_digits(t));
            }
        }
    }
    lemma_before_dot_concat(t, suffix);
    assert(before_dot(suffix) =~= Seq::<char>::empty());
    assert(t + Seq::<char>::empty() =~= t);
    let v = option_value(id, ask);
    assert(v == t + suffix);
    if ask {
        assert(v.subrange(v.len() - 4, v.len() as int) =~= seq!['t', 'r', 'u', 'e']);
        assert(v.subrange(v.len() - 5, v.len() as int)[0] == '.');
    } else {
        assert(v.subrange(v.len() - 5, v.len() as int) =~= seq!['f', 'a', 'l', 's', 'e']);
        assert(v.subrange(v.len() - 4, v.len() as int)[0] == 'a');
    }
}

proof fn lemma_selection_of_values(instruments: Seq<ClientInstrument>)
    ensures
        selected_ids(option_values(instruments), seq!['t', 'r', 'u', 'e']) == instrument_ids(
            instruments,
        ),
        selected_ids(option_values(instruments), seq!['f', 'a', 'l', 's', 'e']) == instrument_ids(
            instruments,
        ),
    decreases instruments.len(),
{
    if instruments.len() > 0 {
        let rest = instruments.drop_last();
        let id = instruments.last().id;
        lemma_selection_of_values(rest);
        lemma_option_value(id, true);
        lemma_option_value(id, false);
        let vs = option_values(instruments);
        let with_ask = option_values(rest).push(option_value(id, true));
        assert(vs.drop_last() =~= with_ask);
        assert(with_ask.drop_last() =~= option_values(rest));
        assert(instrument_ids(instruments) =~= instrument_ids(rest).push(id));
        let yes = seq!['t', 'r', 'u', 'e'];
        let no = seq!['f', 'a', 'l', 's', 'e'];
        assert(vs.last() == option_value(id, false));
        assert(with_ask.last() == option_value(id, true));
        assert(selected_ids(vs, yes) == selected_ids(with_ask, yes));
        assert(selected_ids(with_ask, yes) == selected_ids(option_values(rest), yes).push(id));
        assert(selected_ids(vs, no) == selected_ids(with_ask, no).push(id));
        assert(selected_ids(with_ask, no) == selected_ids(option_values(rest), no));
    } else {
        assert(instrument_ids(instruments) =~= Seq::<i16>::empty());
    }
}

proof fn lemma_instrument_options_values(
    instruments: Seq<ClientInstrument>,
    options: Seq<InstrumentOption>,
)
    requires
        options.len() == 2 * instruments.len(),
        forall|i: int|
            0 <= i < instruments.len() ==> is_option_for(options[2 * i], #[trigger] instruments[i], true)
                && is_option_for(options[2 * i + 1], instruments[i], false),
    ensures
        options.map_values(|o: InstrumentOption| o.id@) == option_values(instruments),
    decreases instruments.len(),
{
    if instruments.len() > 0 {
        let n = instruments.len() - 1;
        let rest = instruments.drop_last();
        let first = options.take(2 * n);
        assert forall|i: int| 0 <= i < rest.len() implies is_option_for(
            first[2 * i],
            #[trigger] rest[i],
            true,
        ) && is_option_for(first[2 * i + 1], rest[i], false) by {
            assert(rest[i] == instruments[i]);
        }
        lemma_instrument_options_values(rest, first);
        assert(is_option_for(options[2 * n], instruments[n as int], true));
        assert(options.map_values(|o: InstrumentOption| o.id@) =~= first.map_values(
            |o: InstrumentOption| o.id@,
        ).push(options[2 * n].id@).push(options[2 * n + 1].id@));
    } else {
        assert(options.map_values(|o: InstrumentOption| o.id@) =~= Seq::<Seq<char>>::empty());
    }
}

/// The law of the instrument selection: choosing entries of the price chart gives back
/// the instruments they were made from.  Where every entry that `instrument_options`
/// makes for a list of instruments is chosen, in its order, the chart parameters that
/// `selected_prices_params` reads hold the id of each instrument, in order, among the
/// asks and among the bids.
pub proof fn law_selection_gives_back_instruments(
    instruments: Seq<ClientInstrument>,
    options: Seq<InstrumentOption>,
)
    requires
        options.len() == 2 * instruments.len(),
        forall|i: int|
            0 <= i < instruments.len() ==> is_option_for(options[2 * i], #[trigger] instruments[i], true)
                && is_option_for(options[2 * i + 1], instruments[i], false),
    ensures
        selected_ids(options.map_values(|o: InstrumentOption| o.id@), seq!['t', 'r', 'u', 'e'])
            == instrument_ids(instruments),
        selected_ids(options.map_values(|o: InstrumentOption| o.id@), seq!['f', 'a', 'l', 's', 'e'])
            == instrument_ids(instruments),
{
    lemma_instrument_options_values(instruments, options);
    lemma_selection_of_values(instruments);
}

/// An instrument id chosen in a selection box: the `i16` the text reads as, or 0.
pub open spec fn chosen_id(text: Seq<char>) -> i16 {
    match parse_i16_spec(text) {
        Some(v) => v,
        None => 0,
    }
}

fn read_id(text: &str) -> (r: i16)
    ensures
        r == chosen_id(text@),
{
    let chars = chars_of(text);
    assert(chars@.take(chars@.len() as int) =~= chars@);
    match parse_i16_prefix(&chars, chars.len()) {
        Some(v) => v,
        None => 0,
    }
}

/// The delta chart's parameters from the two instruments chosen: both must be chosen
/// (an id that is not 0) and differ; `None` otherwise.
pub fn delta_selection(instrument1: &str, instrument2: &str) -> (r: Option<DeltaParams>)
    ensures
        ({
            let a = chosen_id(instrument1@);
            let b = chosen_id(instrument2@);
            if a != 0 && b != 0 && a != b {
                r matches Some(p) && p.instrument1 == a && p.instrument2 == b
            } else {
                r is None
            }
        }),
{
    let a = read_id(instrument1);
    let b = read_id(instrument2);
    if a != 0 && b != 0 && a != b {
        Some(DeltaParams { instrument1: a, instrument2: b })
    } else {
        None
    }
}

/// The index of the first name equal to `label`, where there is one.
pub open spec fn first_name(names: Seq<Seq<char>>, label: Seq<char>) -> Option<int> {
    if exists|k: int| 0 <= k < names.len() && names[k] == label && forall|j: int|
        0 <= j < k ==> names[j] != label {
        Some(
            choose|k: int|
                0 <= k < names.len() && names[k] == label && forall|j: int|
                    0 <= j < k ==> names[j] != label,
        )
    } else {
        None
    }
}

/// The entry whose values go to series `d`: the last of the first `n` entries whose
/// label first names series `d`.
pub open spec fn slot_of(names: Seq<Seq<char>>, labels: Seq<Seq<char>>, d: int, n: int) -> Option<int>
    decreases n,
{
    if n <= 0 {
        None
    } else if first_name(names, labels[n - 1]) == Some(d) {
        Some(n - 1)
    } else {
        slot_of(names, labels, d, n - 1)
    }
}

fn find_name(names: &[String], label: &String) -> (r: Option<usize>)
    ensures
        r is None <==> first_name(string_views(names@), label@) is None,
        r matches Some(x) ==> first_name(string_views(names@), label@) == Some(x as int) && x
            < names@.len(),
{
    let ghost v = string_views(names@);
    let mut k: usize = 0;
    while k < names.len()
        invariant
            k <= names@.len(),
            v == string_views(names@),
            forall|j: int| 0 <= j < k ==> v[j] != label@,
        decreases names@.len() - k,
    {
        if names[k] == *label {
            proof {
                assert(v[k as int] == label@);
                let w = choose|w: int|
                    0 <= w < v.len() && v[w] == label@ && forall|j: int| 0 <= j < w ==> v[j] != label@;
                if w < k {
                } else if w > k {
                    assert(v[k as int] != label@);
                }
            }
            return Some(k);
        }
        k = k + 1;
    }
    None
}

/// Where the values of each price series go among the chart's entries: the series named
/// by `names[d]` goes to the last entry whose label is first found at `names[d]`, or to
/// entry 0 where there is none.
pub fn series_slots(names: &[String], labels: &[String]) -> (r: Vec<usize>)
    ensures
        r@.len() == names@.len(),
        forall|d: int|
            0 <= d < names@.len() ==> #[trigger] r@[d] == match slot_of(
                string_views(names@),
                string_views(labels@),
                d,
                labels@.len() as int,
            ) {
                Some(i) => i as usize,
                None => 0,
            },
{
    let ghost nv = string_views(names@);
    let ghost lv = string_views(labels@);
    let mut slots: Vec<Option<usize>> = Vec::new();
    let mut d: usize = 0;
    while d < names.len()
        invariant
            d <= names@.len(),
            slots@.len() == d,
            forall|e: int| 0 <= e < d ==> slots@[e] is None,
        decreases names@.len() - d,
    {
        slots.push(None);
        d = d + 1;
    }
    let mut i: usize = 0;
    while i < labels.len()
        invariant
            i <= labels@.len(),
            nv == string_views(names@),
            lv == string_views(labels@),
            slots@.len() == names@.len(),
            forall|e: int|
                0 <= e < names@.len() ==> #[trigger] slots@[e] == match slot_of(nv, lv, e, i as int) {
                    Some(x) => Some(x as usize),
                    None => None::<usize>,
                },
        decreases labels@.len() - i,
    {
        assert(lv[i as int] == labels@[i as int]@);
        let ghost old_slots = slots@;
        let found = find_name(names, &labels[i]);
        let ghost f = first_name(nv, lv[i as int]);
        assert(found is None ==> f is None);
        assert(found matches Some(k) ==> f == Some(k as int));
        match found {
            Some(k) => {
                slots.set(k, Some(i));
            },
            None => {},
        }
        assert forall|e: int| 0 <= e < names@.len() implies #[trigger] slots@[e] == match slot_of(
            nv,
            lv,
            e,
            i + 1,
        ) {
            Some(x) => Some(x as usize),
            None => None::<usize>,
        } by {
            assert(old_slots[e] == match slot_of(nv, lv, e, i as int) {
                Some(x) => Some(x as usize),
                None => None::<usize>,
            });
            if f == Some(e) {
                assert(slot_of(nv, lv, e, i + 1) == Some(i as int));
            } else {
                assert(slot_of(nv, lv, e, i + 1) == slot_of(nv, lv, e, i as int));
            }
        }
        i = i + 1;
    }
    let mut r: Vec<usize> = Vec::new();
    let mut e: usize = 0;
    while e < slots.len()
        invariant
            e <= slots@.len(),
            slots@.len() == names@.len(),
            nv == string_views(names@),
            lv == string_views(labels@),
            r@.len() == e,
            forall|x: int|
                0 <= x < names@.len() ==> #[trigger] slots@[x] == match slot_of(
                    nv,
                    lv,
                    x,
                    labels@.len() as int,
                ) {
                    Some(y) => Some(y as usize),
                    None => None::<usize>,
                },
            forall|x: int|
                0 <= x < e ==> #[trigger] r@[x] == match slots@[x] {
                    Some(y) => y,
                    None => 0,
                },
        decreases slots@.len() - e,
    {
        r.push(
            match slots[e] {
                Some(y) => y,
                None => 0,
            },
        );
        e = e + 1;
    }
    r
}

} // verus!
