use crate::error::OptzError;
use std::rc::Rc;
use vstd::prelude::*;

verus! {

/// Whether an option stands alone or takes the token after it as its value.
#[derive(Clone, Copy, Debug, PartialEq, Eq, Structural)]
pub enum Arg {
    Arg,
    Flag,
}

impl Default for Arg {
    fn default() -> (r: Arg)
        ensures
            r == Arg::Flag,
    {
        Arg::Flag
    }
}

/// Read access to a parsed session, as handlers see it.
pub trait SessionView {
    /// The name the session was created with.
    fn session_name(&self) -> String;

    /// The values stored for the option called `name`.
    fn option_values(&self, name: &str) -> Vec<String>;

    /// The positional tokens, in input order.
    fn rest_args(&self) -> Vec<String>;
}

/// A callback that runs after a successful pass over the tokens.
pub trait Handler {
    /// A failure here fails the parse.
    fn call(&self, session: &dyn SessionView) -> Result<(), OptzError>;
}

/// A shared handler, as options and sessions hold it.
pub struct Callback(pub Rc<Box<dyn Handler>>);

impl Clone for Callback {
    /// Relies on `Rc::clone`: another pointer to the same handler.
    #[verifier::external_body]
    fn clone(&self) -> (r: Self)
        ensures
            r == *self,
    {
        Callback(Rc::clone(&self.0))
    }
}

fn clone_text(o: &Option<String>) -> (r: Option<String>)
    ensures
        r == *o,
{
    match o {
        Some(s) => Some(s.clone()),
        None => None,
    }
}

fn clone_callback(o: &Option<Callback>) -> (r: Option<Callback>)
    ensures
        r == *o,
{
    match o {
        Some(c) => Some(c.clone()),
        None => None,
    }
}

pub(crate) fn clone_values(v: &Vec<String>) -> (r: Vec<String>)
    ensures
        r@ == v@,
{
    let mut r: Vec<String> = Vec::new();
    let mut k: usize = 0;
    while k < v.len()
        invariant
            k <= v@.len(),
            r@ == v@.subrange(0, k as int),
        decreases v@.len() - k,
    {
        r.push(v[k].clone());
        assert(r@ =~= v@.subrange(0, k + 1));
        k = k + 1;
    }
    assert(v@.subrange(0, v@.len() as int) =~= v@);
    r
}

impl Clone for Opt {
    fn clone(&self) -> (r: Self)
        ensures
            r.same_setup(self),
            r.values@ == self.values@,
    {
        Opt {
            arg: self.arg,
            description: clone_text(&self.description),
            handler: clone_callback(&self.handler),
            long: self.long.clone(),
            multiple: self.multiple,
            name: self.name.clone(),
            short: clone_text(&self.short),
            values: clone_values(&self.values),
        }
    }
}

impl Callback {
    /// Runs the handler on `session`.
    pub fn call(&self, session: &dyn SessionView) -> Result<(), OptzError> {
        self.0.call(session)
    }
}

/// One registered option.
pub struct Opt {
    pub arg: Arg,
    pub description: Option<String>,
    pub handler: Option<Callback>,
    pub long: String,
    pub multiple: bool,
    pub name: String,
    pub short: Option<String>,
    pub values: Vec<String>,
}

/// What the pass over the tokens reads of an option.
pub struct Form {
    pub long: Seq<char>,
    pub short: Option<Seq<char>>,
    pub takes_value: bool,
    pub multiple: bool,
}

/// The long form of an option called `name`.
pub open spec fn long_of(name: Seq<char>) -> Seq<char> {
    "--"@ + name
}

/// The views of a sequence of strings.
pub open spec fn texts(v: Seq<String>) -> Seq<Seq<char>> {
    v.map_values(|s: String| s@)
}

pub open spec fn opt_text(o: Option<String>) -> Option<Seq<char>> {
    match o {
        Some(s) => Some(s@),
        None => None,
    }
}

impl Opt {
    pub open spec fn form(&self) -> Form {
        Form {
            long: self.long@,
            short: opt_text(self.short),
            takes_value: self.arg == Arg::Arg,
            multiple: self.multiple,
        }
    }

    /// Everything but the stored values.
    pub open spec fn same_setup(&self, other: &Opt) -> bool {
        &&& self.arg == other.arg
        &&& self.description == other.description
        &&& self.handler == other.handler
        &&& self.long == other.long
        &&& self.multiple == other.multiple
        &&& self.name == other.name
        &&& self.short == other.short
    }

    /// A fresh option of the given kind, with no alias, values or handler.
    pub open spec fn is_fresh(&self, name: Seq<char>, arg: Arg) -> bool {
        &&& self.arg == arg
        &&& self.description is None
        &&& self.handler is None
        &&& self.long@ == long_of(name)
        &&& !self.multiple
        &&& self.name@ == name
        &&& self.short is None
        &&& self.values@.len() == 0
    }

    fn fresh(name: &str, arg: Arg) -> (r: Self)
        ensures
            r.is_fresh(name@, arg),
    {
        let mut long = "--".to_owned();
        long.append(name);
        Opt {
            arg,
            description: None,
            handler: None,
            long,
            multiple: false,
            name: name.to_owned(),
            short: None,
            values: Vec::new(),
        }
    }

    /// An option that takes no value: its presence stores `"true"`.
    pub fn flag(name: &str) -> (r: Self)
        ensures
            r.is_fresh(name@, Arg::Flag),
    {
        Opt::fresh(name, Arg::Flag)
    }

    /// An option that takes the next token as its value.
    pub fn arg(name: &str) -> (r: Self)
        ensures
            r.is_fresh(name@, Arg::Arg),
    {
        Opt::fresh(name, Arg::Arg)
    }

    /// Whether repeated occurrences accumulate rather than replace.
    pub fn multiple(self, multiple: bool) -> (r: Self)
        ensures
            r == (Opt { multiple, ..self }),
    {
        Opt { multiple, ..self }
    }

    /// Seeds the values with exactly `value`.
    pub fn default_value(self, value: &str) -> (r: Self)
        ensures
            r.same_setup(&self),
            texts(r.values@) == seq![value@],
    {
        let mut values = Vec::new();
        values.push(value.to_owned());
        let r = Opt { values, ..self };
        assert(texts(r.values@) =~= seq![value@]);
        r
    }

    /// The text shown beside the option in the help.
    pub fn description(self, desc: &str) -> (r: Self)
        ensures
            r.arg == self.arg,
            opt_text(r.description) == Some(desc@),
            r.handler == self.handler,
            r.long == self.long,
            r.multiple == self.multiple,
            r.name == self.name,
            r.short == self.short,
            r.values == self.values,
    {
        Opt { description: Some(desc.to_owned()), ..self }
    }

    /// The callback that runs when the option got a value.
    pub fn handler(self, handler: Callback) -> (r: Self)
        ensures
            r.arg == self.arg,
            r.description == self.description,
            r.handler == Some(handler),
            r.long == self.long,
            r.multiple == self.multiple,
            r.name == self.name,
            r.short == self.short,
            r.values == self.values,
    {
        Opt { handler: Some(handler), ..self }
    }

    /// An alternate token for the option, such as `-v`.
    pub fn short(self, short: &str) -> (r: Self)
        ensures
            r.arg == self.arg,
            r.description == self.description,
            r.handler == self.handler,
            r.long == self.long,
            r.multiple == self.multiple,
            r.name == self.name,
            opt_text(r.short) == Some(short@),
            r.values == self.values,
    {
        Opt { short: Some(short.to_owned()), ..self }
    }
}

} // verus!
