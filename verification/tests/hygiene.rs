use infinite_iterator::looping::{run_loop, Collector};
use infinite_iterator::source::BoundedRange;

#[test]
fn hygiene() {
    let mut src = BoundedRange::new(0, 10);
    let mut body = Collector { seen: Vec::new() };
    let out = run_loop(&mut src, &mut body);
    assert!(out.is_none());
    for x in body.seen {
        println!("{x}");
    }
}
