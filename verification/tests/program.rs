use ribbit::{Streams, Vm};

fn streams(input: &[u8]) -> Streams<'_> {
    Streams {
        input,
        position: 0,
        output: vec![],
    }
}

#[test]
fn define_global() {
    // (define x 42)
    Vm::new(b"#di,!tes-1dleif,1gra,,,,bir;)lk>m?mki#!):nlkl!':nlkm!(:nlku{")
        .run(&mut streams(&[]))
        .unwrap();
}
