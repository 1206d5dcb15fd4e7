use optz::{Callback, Handler, Opt, Optz, OptzError, SessionView};
use std::cell::{Cell, RefCell};
use std::rc::Rc;

struct Mark(Rc<Cell<bool>>);

impl Handler for Mark {
  fn call(&self, _session: &dyn SessionView) -> Result<(), OptzError> {
    self.0.set(true);
    Ok(())
  }
}

struct Fails(&'static str);

impl Handler for Fails {
  fn call(&self, _session: &dyn SessionView) -> Result<(), OptzError> {
    Err(OptzError::Parse(self.0.to_string()))
  }
}

struct Seen(Rc<RefCell<Vec<String>>>);

impl Handler for Seen {
  fn call(&self, session: &dyn SessionView) -> Result<(), OptzError> {
    let mut seen = self.0.borrow_mut();
    seen.push(session.session_name());
    seen.extend(session.option_values("num"));
    seen.extend(session.rest_args());
    Ok(())
  }
}

#[test]
fn long_and_short_forms_store_the_same() {
  let long = Optz::from_args("t", vec!["t", "--verbose"])
    .option(Opt::flag("verbose").short("-v"))
    .parse()
    .unwrap();
  let short = Optz::from_args("t", vec!["t", "-v"])
    .option(Opt::flag("verbose").short("-v"))
    .parse()
    .unwrap();
  assert_eq!(long.options[0].values, short.options[0].values);
  assert_eq!(long.options[0].values, vec!["true"]);
}

#[test]
fn repeated_flag_accumulates_when_multiple() {
  let optz = Optz::from_args("t", vec!["t", "-v", "--verbose"])
    .option(Opt::flag("verbose").short("-v").multiple(true))
    .parse()
    .unwrap();
  let all: Vec<bool> = optz.get_values("verbose").unwrap();
  assert_eq!(all, vec![true, true]);
}

#[test]
fn rest_keeps_order_and_skips_consumed_values() {
  let optz = Optz::from_args("t", vec!["t", "a", "--num", "5", "b", "-", "c", "--nope"])
    .option(Opt::arg("num"))
    .parse()
    .unwrap();
  assert_eq!(optz.rest, vec!["a", "b", "c"]);
  let num: u8 = optz.get("num").unwrap().unwrap();
  assert_eq!(num, 5);
}

#[test]
fn value_that_looks_like_an_option_is_consumed() {
  let optz = Optz::from_args("t", vec!["t", "--num", "--verbose"])
    .option(Opt::arg("num"))
    .option(Opt::flag("verbose"))
    .parse()
    .unwrap();
  assert_eq!(optz.raw_value("num"), Some("--verbose".to_string()));
  assert_eq!(optz.raw_value("verbose"), None);
}

#[test]
fn missing_argument_is_that_variant() {
  let err = Optz::from_args("t", vec!["t", "--num-items"])
    .option(Opt::arg("num-items"))
    .parse()
    .err()
    .unwrap();
  assert!(matches!(err, OptzError::MissingArgument));
  assert_eq!(err.message(), "Missing argument");
}

#[test]
fn second_occurrence_replaces_without_multiple() {
  let optz = Optz::from_args("t", vec!["t", "--num-items", "10", "--num-items", "20"])
    .option(Opt::arg("num-items"))
    .parse()
    .unwrap();
  let result: Vec<u32> = optz.get_values("num-items").unwrap();
  assert_eq!(result, vec![20]);
}

#[test]
fn default_is_replaced_or_kept() {
  let single = Optz::from_args("t", vec!["t", "--n", "7"])
    .option(Opt::arg("n").default_value("5"))
    .parse()
    .unwrap();
  assert_eq!(single.raw_values("n"), vec!["7"]);
  let many = Optz::from_args("t", vec!["t", "--n", "7"])
    .option(Opt::arg("n").default_value("5").multiple(true))
    .parse()
    .unwrap();
  assert_eq!(many.raw_values("n"), vec!["5", "7"]);
}

#[test]
fn absent_values_read_as_none() {
  let optz = Optz::from_args("t", vec!["t", "x"])
    .option(Opt::arg("num"))
    .parse()
    .unwrap();
  let num: Option<u32> = optz.get("num").unwrap();
  assert_eq!(num, None);
  let missing: Option<u32> = optz.get("nothing").unwrap();
  assert_eq!(missing, None);
  let all: Vec<u32> = optz.get_values("num").unwrap();
  assert!(all.is_empty());
}

#[test]
fn conversion_failure_names_the_value() {
  let optz = Optz::from_args("t", vec!["t", "--num", "abc"])
    .option(Opt::arg("num").multiple(true))
    .parse()
    .unwrap();
  match optz.get::<u32>("num") {
    Err(OptzError::Parse(msg)) => assert_eq!(msg, "invalid value: abc"),
    _ => panic!("expected a conversion error"),
  }
  match optz.get_values::<u32>("num") {
    Err(OptzError::Parse(msg)) => assert_eq!(msg, "invalid value: abc"),
    _ => panic!("expected a conversion error"),
  }
}

#[test]
fn failing_handler_stops_the_session_handler() {
  let session_ran = Rc::new(Cell::new(false));
  let result = Optz::from_args("t", vec!["t", "--bad"])
    .option(Opt::flag("bad").handler(Callback(Rc::new(Box::new(Fails("no"))))))
    .handler(Callback(Rc::new(Box::new(Mark(session_ran.clone())))))
    .parse();
  match result {
    Err(OptzError::Parse(msg)) => assert_eq!(msg, "no"),
    _ => panic!("expected the handler's error"),
  }
  assert!(!session_ran.get());
}

#[test]
fn handler_without_value_does_not_run() {
  let ran = Rc::new(Cell::new(false));
  let session_ran = Rc::new(Cell::new(false));
  let optz = Optz::from_args("t", vec!["t", "x"])
    .option(Opt::flag("quiet").handler(Callback(Rc::new(Box::new(Mark(ran.clone()))))))
    .handler(Callback(Rc::new(Box::new(Mark(session_ran.clone())))))
    .parse();
  assert!(optz.is_ok());
  assert!(!ran.get());
  assert!(session_ran.get());
}

#[test]
fn handler_reads_the_session() {
  let seen = Rc::new(RefCell::new(Vec::new()));
  Optz::from_args("prog", vec!["prog", "--num", "3", "file"])
    .option(Opt::arg("num").handler(Callback(Rc::new(Box::new(Seen(seen.clone()))))))
    .parse()
    .unwrap();
  assert_eq!(*seen.borrow(), vec!["prog", "3", "file"]);
}

#[test]
fn empty_invocation_asks_for_help() {
  let empty = Optz::from_args("t", vec!["t"]).parse().unwrap();
  assert!(empty.help_requested);
  let busy = Optz::from_args("t", vec!["t", "x"]).parse().unwrap();
  assert!(!busy.help_requested);
  let asked = Optz::from_args("t", vec!["t", "-h"]).parse().unwrap();
  assert!(asked.help_requested);
}

#[test]
fn config_of_another_type_round_trips() {
  let optz = Optz::from_args("t", vec!["t"]).config(String::from("payload"));
  assert_eq!(optz.get_config(), Some(&String::from("payload")));
  let bare = Optz::from_args("t", vec!["t"]);
  assert_eq!(bare.get_config(), None);
}

#[test]
fn help_text_lists_every_option() {
  let optz = Optz::from_args("prog", vec!["prog", "x"])
    .option(Opt::flag("verbose").short("-v").description("Be loud"))
    .option(Opt::arg("a-very-long-name"))
    .parse()
    .unwrap();
  assert_eq!(
    optz.help_text(),
    "Usage: prog [options]\n  -v, --verbose    Be loud\n      --a-very-long-name \n  -h, --help       Show help\n"
  );
}

#[test]
fn usage_and_description_are_kept() {
  let optz = Optz::from_args("prog", vec!["prog"])
    .usage("prog FILE")
    .description("Does things")
    .parse()
    .unwrap();
  assert_eq!(optz.usage, Some("prog FILE".to_string()));
  assert_eq!(optz.description, Some("Does things".to_string()));
  assert_eq!(optz.into_options().len(), 1);
}

#[test]
fn first_named_option_with_values_wins() {
  let optz = Optz::from_args("t", vec!["t", "--b", "2"])
    .option(Opt::arg("n").short("--a"))
    .option(Opt::arg("n").short("--b"))
    .parse()
    .unwrap();
  let n: u32 = optz.get("n").unwrap().unwrap();
  assert_eq!(n, 2);
}

#[test]
fn program_name_is_skipped() {
  let optz = Optz::from_args("t", vec!["t", "one", "two"]);
  assert_eq!(optz.args, vec!["one", "two"]);
  let none = Optz::from_args("t", vec![]);
  assert!(none.args.is_empty());
}

#[test]
fn builders_set_fields_and_kind_defaults_to_flag() {
  let opt = Opt::arg("n").short("-n").default_value("1");
  assert_eq!(opt.values, vec!["1"]);
  assert_eq!(opt.long, "--n");
  assert_eq!(opt.short, Some("-n".to_string()));
  assert_eq!(opt.arg, optz::Arg::Arg);
  assert_eq!(optz::Arg::default(), optz::Arg::Flag);
}

#[test]
fn repeated_positional_tokens_are_all_kept() {
  let optz = Optz::from_args("t", vec!["t", "b", "a", "b"]).parse().unwrap();
  assert_eq!(optz.rest, vec!["b", "a", "b"]);
}

#[test]
fn flag_named_in_any_mix_holds_one_value() {
  let optz = Optz::from_args("t", vec!["t", "-v", "x", "--verbose", "-v"])
    .option(Opt::flag("verbose").short("-v"))
    .parse()
    .unwrap();
  assert_eq!(optz.raw_values("verbose"), vec!["true"]);
}

#[test]
fn clone_keeps_setup_and_values() {
  let ran = Rc::new(Cell::new(false));
  let opt = Opt::arg("n")
    .short("-n")
    .default_value("1")
    .handler(Callback(Rc::new(Box::new(Mark(ran.clone())))));
  let copy = opt.clone();
  assert_eq!(copy.values, vec!["1"]);
  assert_eq!(copy.long, "--n");
  assert_eq!(copy.short, Some("-n".to_string()));
  assert!(copy.handler.is_some());
}

#[test]
fn default_session_is_empty() {
  let optz: Optz<()> = Optz::default();
  assert!(optz.args.is_empty());
  assert!(optz.options.is_empty());
  assert!(optz.name.is_empty());
  assert!(optz.usage.is_none());
  assert!(optz.get_config().is_none());
}

#[test]
fn handler_sees_rest_and_name_through_view() {
  let seen = Rc::new(RefCell::new(Vec::new()));
  Optz::from_args("prog", vec!["prog", "a", "--num", "4", "b"])
    .option(Opt::arg("num").handler(Callback(Rc::new(Box::new(Seen(seen.clone()))))))
    .parse()
    .unwrap();
  assert_eq!(*seen.borrow(), vec!["prog", "4", "a", "b"]);
}
