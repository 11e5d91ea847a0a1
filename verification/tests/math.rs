#[test]
fn tstexp() {
    for i in 0..7 {
        let x = 0.5 + 0.5 * i as f64 / 7.0;
        let y = (x * 2.0).log2();
        println!("{x} -> {y}");
    }
}
