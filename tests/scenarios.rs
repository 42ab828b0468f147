use brainfuck::{BrainFuck, Command, Status};

const FUEL: u64 = 1_000;

fn run_source(source: &str) -> (Status, Vec<u8>) {
    let bf = BrainFuck::parse(source);
    let r = bf.run(FUEL);
    (r.status, r.output)
}

#[test]
fn two_increments_then_output() {
    assert_eq!(run_source("++."), (Status::Finished, vec![2u8]));
}

#[test]
fn multiplication_loop() {
    let bf = BrainFuck::parse("+++++[>+++++<-]>.");
    let r = bf.run(FUEL);
    assert_eq!(r.status, Status::Finished);
    assert_eq!(r.output, vec![25u8]);
    assert_eq!(r.machine.position(), 1);
    assert_eq!(r.machine.get_data(), 25);
}

#[test]
fn loop_on_zero_cell_never_runs() {
    let bf = BrainFuck::parse("[-]");
    for fuel in [0u64, 1, FUEL] {
        let r = bf.run(fuel);
        assert_eq!(r.status, Status::Finished);
        assert!(r.output.is_empty());
        assert_eq!(r.machine.get_data(), 0);
    }
}

#[test]
fn unmatched_close_ends_the_parse() {
    let bf = BrainFuck::parse("+.]+.");
    assert_eq!(bf.commands().len(), 2);
    assert!(matches!(bf.commands()[0], Command::IncData));
    assert!(matches!(bf.commands()[1], Command::OutputByte));
    assert_eq!(run_source("+.]+."), (Status::Finished, vec![1u8]));
}

#[test]
fn input_stops_execution() {
    assert_eq!(run_source("+.,+."), (Status::InputUnsupported, vec![1u8]));
    assert_eq!(run_source(",++."), (Status::InputUnsupported, vec![]));
    assert_eq!(run_source("+[.,]"), (Status::InputUnsupported, vec![1u8]));
}

#[test]
fn digits_example() {
    let source = format!(">{}\n<{}\n[\n    >.+\n    <-\n]", "+".repeat(48), "+".repeat(10));
    let r = BrainFuck::parse(&source).run(FUEL);
    assert_eq!(r.status, Status::Finished);
    assert_eq!(r.output, b"0123456789".to_vec());
    assert_eq!(r.machine.get_data(), 0);
}

#[test]
fn from_str_matches_parse() {
    let bf: BrainFuck = "++.".parse().unwrap();
    assert_eq!(bf.run(FUEL).output, vec![2u8]);
}

#[test]
fn other_characters_are_ignored() {
    let bf = BrainFuck::parse("a + b\n+ c .");
    assert_eq!(bf.commands().len(), 3);
    assert_eq!(bf.run(FUEL).output, vec![2u8]);
}

#[test]
fn unmatched_open_takes_the_rest() {
    let bf = BrainFuck::parse("+[-.");
    assert_eq!(bf.commands().len(), 2);
    match &bf.commands()[1] {
        Command::Loop(body) => {
            assert_eq!(body.len(), 2);
            assert!(matches!(body[0], Command::DecData));
            assert!(matches!(body[1], Command::OutputByte));
        }
        other => panic!("expected a loop, found {:?}", other),
    }
    let r = bf.run(FUEL);
    assert_eq!(r.status, Status::Finished);
    assert_eq!(r.output, vec![0u8]);
}

#[test]
fn nested_loops_parse_as_a_tree() {
    let bf = BrainFuck::parse("[>[+]<]-");
    assert_eq!(bf.commands().len(), 2);
    match &bf.commands()[0] {
        Command::Loop(body) => {
            assert_eq!(body.len(), 3);
            assert!(matches!(body[1], Command::Loop(ref inner) if inner.len() == 1));
        }
        other => panic!("expected a loop, found {:?}", other),
    }
    assert!(matches!(bf.commands()[1], Command::DecData));
}

#[test]
fn every_operator_parses() {
    let bf = BrainFuck::parse("><+-.,[]");
    let c = bf.commands();
    assert_eq!(c.len(), 7);
    assert!(matches!(c[0], Command::IncPtr));
    assert!(matches!(c[1], Command::DecPtr));
    assert!(matches!(c[2], Command::IncData));
    assert!(matches!(c[3], Command::DecData));
    assert!(matches!(c[4], Command::OutputByte));
    assert!(matches!(c[5], Command::AcceptByte));
    assert!(matches!(c[6], Command::Loop(ref b) if b.is_empty()));
}

#[test]
fn empty_source_finishes_with_no_output() {
    let bf = BrainFuck::parse("");
    assert!(bf.commands().is_empty());
    assert_eq!(bf.run(0).status, Status::Finished);
}

#[test]
fn endless_loop_runs_out_of_fuel() {
    let r = BrainFuck::parse("+[.]").run(5);
    assert_eq!(r.status, Status::OutOfFuel);
    assert_eq!(r.output, vec![1u8; 5]);
}

#[test]
fn more_fuel_keeps_a_finished_run() {
    let bf = BrainFuck::parse("+++[>++<-]>.");
    let small = bf.run(3);
    let large = bf.run(50);
    assert_eq!(small.status, Status::Finished);
    assert_eq!(small.status, large.status);
    assert_eq!(small.output, large.output);
    assert_eq!(small.output, vec![6u8]);
    assert_eq!(bf.run(2).status, Status::OutOfFuel);
}

#[test]
fn straight_line_program_finishes_without_fuel() {
    let r = BrainFuck::parse(">>+<-.<.").run(0);
    assert_eq!(r.status, Status::Finished);
    assert_eq!(r.output, vec![255u8, 0]);
}

#[test]
fn output_wraps_below_zero() {
    assert_eq!(run_source("-."), (Status::Finished, vec![255u8]));
}

#[test]
fn program_can_run_twice() {
    let bf = BrainFuck::parse("+++.");
    assert_eq!(bf.run(FUEL).output, bf.run(FUEL).output);
}

#[test]
fn less_fuel_output_is_a_prefix() {
    let bf = BrainFuck::parse("+[.+]");
    let small = bf.run(3);
    let large = bf.run(300);
    assert_eq!(small.status, Status::OutOfFuel);
    assert_eq!(small.output, vec![1u8, 2, 3]);
    assert_eq!(large.status, Status::Finished);
    assert_eq!(large.output.len(), 255);
    assert_eq!(&large.output[..3], &small.output[..]);
}
