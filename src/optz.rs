use crate::error::OptzError;
use crate::opt::{clone_values, long_of, opt_text, texts, Arg, Callback, Form, Opt, SessionView};
use vstd::prelude::*;
use vstd::string::StrSliceExecFns;

verus! {

/// Values per option, then the positional tokens.
pub type PassState = (Seq<Seq<Seq<char>>>, Seq<Seq<char>>);

/// The lone `-` token, which the pass skips.
pub open spec fn is_lone_dash(t: Seq<char>) -> bool {
    t.len() == 1 && t[0] == '-'
}

/// A token that is looked up among the options.
pub open spec fn is_option_like(t: Seq<char>) -> bool {
    t.len() > 0 && t[0] == '-'
}

pub open spec fn form_matches(f: Form, t: Seq<char>) -> bool {
    f.long == t || f.short == Some(t)
}

/// The first option, from index `k` on, whose long or short form is `t`.
pub open spec fn first_match_from(forms: Seq<Form>, t: Seq<char>, k: int) -> Option<int>
    decreases forms.len() - k,
{
    if k < 0 || k >= forms.len() {
        None
    } else if form_matches(forms[k], t) {
        Some(k)
    } else {
        first_match_from(forms, t, k + 1)
    }
}

/// What the first match is: a matching option, with none before it.
pub proof fn lemma_first_match_from(forms: Seq<Form>, t: Seq<char>, k: int)
    requires
        0 <= k,
    ensures
        match first_match_from(forms, t, k) {
            Some(j) => k <= j < forms.len() && form_matches(forms[j], t) && forall|m: int|
                k <= m < j ==> !form_matches(#[trigger] forms[m], t),
            None => forall|m: int| k <= m < forms.len() ==> !form_matches(#[trigger] forms[m], t),
        },
    decreases forms.len() - k,
{
    if k < forms.len() && !form_matches(forms[k], t) {
        lemma_first_match_from(forms, t, k + 1);
    }
}

pub open spec fn first_match(forms: Seq<Form>, t: Seq<char>) -> Option<int> {
    first_match_from(forms, t, 0)
}

/// One more value for an option: appended, or replacing all earlier ones.
pub open spec fn record(vals: Seq<Seq<char>>, multiple: bool, v: Seq<char>) -> Seq<Seq<char>> {
    if multiple {
        vals.push(v)
    } else {
        seq![v]
    }
}

/// The pass over `toks`, from the values `vals` and positional tokens `rest`;
/// `None` where an option that takes a value is the last token.
pub open spec fn run(
    forms: Seq<Form>,
    toks: Seq<Seq<char>>,
    vals: Seq<Seq<Seq<char>>>,
    rest: Seq<Seq<char>>,
) -> Option<PassState>
    decreases toks.len(),
{
    if toks.len() == 0 {
        Some((vals, rest))
    } else {
        let tok = toks[0];
        let tail = toks.drop_first();
        if is_lone_dash(tok) {
            run(forms, tail, vals, rest)
        } else if is_option_like(tok) {
            match first_match(forms, tok) {
                None => run(forms, tail, vals, rest),
                Some(j) => if !forms[j].takes_value {
                    run(forms, tail, vals.update(j, record(vals[j], forms[j].multiple, "true"@)), rest)
                } else if tail.len() == 0 {
                    None
                } else {
                    run(
                        forms,
                        tail.drop_first(),
                        vals.update(j, record(vals[j], forms[j].multiple, tail[0])),
                        rest,
                    )
                },
            }
        } else {
            run(forms, tail, vals, rest.push(tok))
        }
    }
}

pub open spec fn forms_of(opts: Seq<Opt>) -> Seq<Form> {
    opts.map_values(|o: Opt| o.form())
}

pub open spec fn values_of(opts: Seq<Opt>) -> Seq<Seq<Seq<char>>> {
    opts.map_values(|o: Opt| texts(o.values@))
}

/// The first option, from index `k` on, called `name` that holds a value.
pub open spec fn lookup_from(opts: Seq<Opt>, name: Seq<char>, k: int) -> Option<int>
    decreases opts.len() - k,
{
    if k < 0 || k >= opts.len() {
        None
    } else if opts[k].name@ == name && opts[k].values@.len() > 0 {
        Some(k)
    } else {
        lookup_from(opts, name, k + 1)
    }
}

pub open spec fn lookup(opts: Seq<Opt>, name: Seq<char>) -> Option<int> {
    lookup_from(opts, name, 0)
}

/// All values stored under `name`, in the order they came.
pub open spec fn values_named(opts: Seq<Opt>, name: Seq<char>) -> Seq<Seq<char>> {
    match lookup(opts, name) {
        Some(i) => texts(opts[i].values@),
        None => Seq::empty(),
    }
}

/// The first value stored under `name`.
pub open spec fn first_value(opts: Seq<Opt>, name: Seq<char>) -> Option<Seq<char>> {
    match lookup(opts, name) {
        Some(i) => Some(texts(opts[i].values@)[0]),
        None => None,
    }
}

pub proof fn lemma_lookup_from(opts: Seq<Opt>, name: Seq<char>, k: int)
    requires
        0 <= k,
    ensures
        match lookup_from(opts, name, k) {
            Some(i) => k <= i < opts.len() && opts[i].name@ == name && opts[i].values@.len() > 0,
            None => true,
        },
    decreases opts.len() - k,
{
    if k < opts.len() && !(opts[k].name@ == name && opts[k].values@.len() > 0) {
        lemma_lookup_from(opts, name, k + 1);
    }
}

/// The message of a value that did not convert.
pub open spec fn conversion_message(raw: Seq<char>) -> Seq<char> {
    "invalid value: "@ + raw
}

/// The usage line of a session that was given none.
pub open spec fn default_usage(name: Seq<char>) -> Seq<char> {
    "Usage: "@ + name + " [options]"@
}

/// The views of a sequence of string slices.
pub open spec fn strs<'a>(v: Seq<&'a str>) -> Seq<Seq<char>> {
    v.map_values(|s: &'a str| s@)
}

/// Relies on `str::parse`: converts text to a value of the requested type.
#[verifier::external_body]
fn convert<T: std::str::FromStr>(raw: &str) -> Option<T> {
    raw.parse::<T>().ok()
}

fn conversion_error(raw: &String) -> (e: OptzError)
    ensures
        e matches OptzError::Parse(m) && m@ == conversion_message(raw@),
{
    let mut m = "invalid value: ".to_owned();
    m.append(raw.as_str());
    OptzError::Parse(m)
}

/// `w` columns: `s`, then spaces where it is shorter.
pub open spec fn pad(s: Seq<char>, w: nat) -> Seq<char> {
    if s.len() >= w {
        s
    } else {
        s + Seq::new((w - s.len()) as nat, |_i: int| ' ')
    }
}

/// The help line of one option.
pub open spec fn help_line(o: Opt) -> Seq<char> {
    "  "@ + match o.short {
        Some(sh) => sh@ + ", "@,
        None => "    "@,
    } + pad(o.long@, 12) + " "@ + match o.description {
        Some(d) => d@,
        None => Seq::empty(),
    } + "\n"@
}

pub open spec fn help_lines(opts: Seq<Opt>) -> Seq<char>
    decreases opts.len(),
{
    if opts.len() == 0 {
        Seq::empty()
    } else {
        help_lines(opts.drop_last()) + help_line(opts.last())
    }
}

/// `long`, then spaces up to twelve columns.
fn padded(long: &String) -> (r: String)
    ensures
        r@ == pad(long@, 12),
{
    let mut out = long.clone();
    let mut col = long.as_str().unicode_len();
    while col < 12
        invariant
            long@.len() <= col,
            col <= 12 || col == long@.len(),
            out@ == long@ + Seq::new((col - long@.len()) as nat, |_i: int| ' '),
        decreases 12 - col,
    {
        proof {
            reveal_strlit(" ");
        }
        out.append(" ");
        col = col + 1;
        assert(out@ =~= long@ + Seq::new((col - long@.len()) as nat, |_i: int| ' '));
    }
    assert(out@ =~= pad(long@, 12));
    out
}

/// The help line of one option.
fn help_line_of(opt: &Opt) -> (r: String)
    ensures
        r@ == help_line(*opt),
{
    let mut out = "  ".to_owned();
    match &opt.short {
        Some(sh) => {
            out.append(sh.as_str());
            out.append(", ");
        },
        None => out.append("    "),
    }
    let long = padded(&opt.long);
    out.append(long.as_str());
    out.append(" ");
    if let Some(d) = &opt.description {
        out.append(d.as_str());
    }
    out.append("\n");
    assert(out@ =~= help_line(*opt));
    out
}

/// The option that every session gets before the pass: `--help`, `-h`.
pub open spec fn help_form() -> Form {
    Form { long: long_of("help"@), short: Some("-h"@), takes_value: false, multiple: false }
}

/// An option whose handler runs after the pass: it has one and holds a value.
pub open spec fn is_due(o: Opt) -> bool {
    o.values@.len() > 0 && o.handler is Some
}

/// The indices, from `k` on and in order, of the options whose handler is due.
pub open spec fn due_from(opts: Seq<Opt>, k: int) -> Seq<int>
    decreases opts.len() - k,
{
    if k < 0 || k >= opts.len() {
        Seq::empty()
    } else if is_due(opts[k]) {
        seq![k] + due_from(opts, k + 1)
    } else {
        due_from(opts, k + 1)
    }
}

/// The due indices lie in range, in increasing order, and the first one
/// is followed by those after it.
pub proof fn lemma_due_from(opts: Seq<Opt>, k: int)
    requires
        0 <= k,
    ensures
        forall|m: int|
            0 <= m < due_from(opts, k).len() ==> k <= #[trigger] due_from(opts, k)[m] < opts.len()
                && is_due(opts[due_from(opts, k)[m]]),
        due_from(opts, k).len() > 0 ==> due_from(opts, k) == seq![due_from(opts, k)[0]] + due_from(
            opts,
            due_from(opts, k)[0] + 1,
        ),
        due_from(opts, k).len() == 0 ==> forall|m: int| k <= m < opts.len() ==> !is_due(#[trigger] opts[m]),
    decreases opts.len() - k,
{
    if k < opts.len() {
        lemma_due_from(opts, k + 1);
        if is_due(opts[k]) {
            let d = due_from(opts, k);
            assert(d[0] == k);
            assert forall|m: int| 0 <= m < d.len() implies k <= #[trigger] d[m] < opts.len() && is_due(opts[d[m]]) by {
                if m > 0 {
                    assert(d[m] == due_from(opts, k + 1)[m - 1]);
                }
            }
        }
    }
}

/// Whether `o` is the option that the parse adds for help.
pub open spec fn is_help_option(o: Opt) -> bool {
    &&& o.form() == help_form()
    &&& o.name@ == "help"@
    &&& o.handler is None
    &&& opt_text(o.description) == Some("Show help"@)
}

/// A parse session: its tokens and options, and after the parse their
/// values and the positional tokens.
pub struct Optz<C> {
    pub args: Vec<String>,
    pub handler: Option<Callback>,
    pub name: String,
    pub usage: Option<String>,
    pub description: Option<String>,
    pub authors: Vec<String>,
    pub options: Vec<Opt>,
    pub config: Option<C>,
    pub rest: Vec<String>,
    /// Set by the parse where the help should be shown.
    pub help_requested: bool,
}

impl Optz<()> {
    /// A session over `args`, whose first token, the program name, is skipped.
    pub fn from_args(name: &str, args: Vec<&str>) -> (r: Self)
        ensures
            texts(r.args@) == if args@.len() == 0 {
                Seq::empty()
            } else {
                strs(args@).drop_first()
            },
            r.name@ == name@,
            r.handler is None,
            r.usage is None,
            r.description is None,
            r.authors@.len() == 0,
            r.options@.len() == 0,
            r.config is None,
            r.rest@.len() == 0,
            !r.help_requested,
    {
        let mut toks: Vec<String> = Vec::new();
        assert(texts(toks@) =~= Seq::<Seq<char>>::empty());
        if args.len() > 0 {
            let mut k: usize = 1;
            assert(texts(toks@) =~= strs(args@).subrange(1, 1));
            while k < args.len()
                invariant
                    1 <= k <= args@.len(),
                    texts(toks@) == strs(args@).subrange(1, k as int),
                decreases args@.len() - k,
            {
                let ghost before = toks@;
                toks.push(args[k].to_owned());
                assert(texts(toks@) =~= texts(before).push(args@[k as int]@));
                assert(texts(toks@) =~= strs(args@).subrange(1, k + 1));
                k = k + 1;
            }
            assert(strs(args@).subrange(1, args@.len() as int) =~= strs(args@).drop_first());
        }
        Optz {
            args: toks,
            handler: None,
            name: name.to_owned(),
            usage: None,
            description: None,
            authors: Vec::new(),
            options: Vec::new(),
            config: None,
            rest: Vec::new(),
            help_requested: false,
        }
    }
}

impl<C> Optz<C> {
    /// The outcome of the pass, over the options with the help option after them.
    pub open spec fn pass_outcome(&self) -> Option<PassState> {
        run(
            forms_of(self.options@).push(help_form()),
            texts(self.args@),
            values_of(self.options@).push(Seq::empty()),
            texts(self.rest@),
        )
    }

    /// The index of the first option that `tok` names.
    fn find_option(&self, tok: &String) -> (r: Option<usize>)
        ensures
            match r {
                Some(j) => j < self.options@.len() && first_match(forms_of(self.options@), tok@) == Some(
                    j as int,
                ),
                None => first_match(forms_of(self.options@), tok@) is None,
            },
    {
        proof {
            lemma_first_match_from(forms_of(self.options@), tok@, 0);
        }
        let ghost forms = forms_of(self.options@);
        let mut k: usize = 0;
        while k < self.options.len()
            invariant
                k <= self.options@.len(),
                forms == forms_of(self.options@),
                first_match_from(forms, tok@, k as int) == first_match(forms, tok@),
            decreases self.options@.len() - k,
        {
            let opt = &self.options[k];
            let hit = opt.long == *tok || match &opt.short {
                Some(s) => *s == *tok,
                None => false,
            };
            assert(hit == form_matches(forms[k as int], tok@));
            if hit {
                return Some(k);
            }
            k = k + 1;
        }
        None
    }

    /// Stores `v` for option `j`.
    fn store(&mut self, j: usize, v: String)
        requires
            j < old(self).options@.len(),
        ensures
            final(self).options@.len() == old(self).options@.len(),
            forall|i: int|
                0 <= i < old(self).options@.len() ==> (#[trigger] final(self).options@[i]).same_setup(
                    &old(self).options@[i],
                ),
            forms_of(final(self).options@) == forms_of(old(self).options@),
            values_of(final(self).options@) == values_of(old(self).options@).update(
                j as int,
                record(values_of(old(self).options@)[j as int], old(self).options@[j as int].multiple, v@),
            ),
            final(self).args == old(self).args,
            final(self).rest == old(self).rest,
            final(self).name == old(self).name,
            final(self).usage == old(self).usage,
            final(self).handler == old(self).handler,
            final(self).config == old(self).config,
            final(self).description == old(self).description,
            final(self).authors == old(self).authors,
    {
        let ghost pre = self.options@;
        if self.options[j].multiple {
            self.options[j].values.push(v);
        } else {
            let mut one = Vec::new();
            one.push(v);
            self.options[j].values = one;
        }
        proof {
            let post = self.options@;
            assert(texts(post[j as int].values@) =~= record(texts(pre[j as int].values@), pre[j as int].multiple, v@));
            assert(forms_of(post) =~= forms_of(pre));
            assert(values_of(post) =~= values_of(pre).update(
                j as int,
                record(values_of(pre)[j as int], pre[j as int].multiple, v@),
            ));
        }
    }

    /// The pass over the tokens, in place.
    fn scan(&mut self) -> (r: Result<(), OptzError>)
        ensures
            final(self).options@.len() == old(self).options@.len(),
            forall|i: int|
                0 <= i < old(self).options@.len() ==> (#[trigger] final(self).options@[i]).same_setup(
                    &old(self).options@[i],
                ),
            final(self).args == old(self).args,
            final(self).name == old(self).name,
            final(self).usage == old(self).usage,
            final(self).handler == old(self).handler,
            final(self).config == old(self).config,
            final(self).description == old(self).description,
            final(self).authors == old(self).authors,
            match run(
                forms_of(old(self).options@),
                texts(old(self).args@),
                values_of(old(self).options@),
                texts(old(self).rest@),
            ) {
                Some(out) => r is Ok && values_of(final(self).options@) == out.0 && texts(
                    final(self).rest@,
                ) == out.1,
                None => r == Err::<(), OptzError>(OptzError::MissingArgument),
            },
    {
        let ghost opts0 = self.options@;
        let ghost forms = forms_of(self.options@);
        let ghost toks = texts(self.args@);
        let ghost target = run(forms, toks, values_of(self.options@), texts(self.rest@));
        let n = self.args.len();
        let mut i: usize = 0;
        assert(toks.subrange(0, n as int) =~= toks);
        while i < n
            invariant
                i <= n,
                n == self.args@.len(),
                toks == texts(self.args@),
                self.args == old(self).args,
                self.name == old(self).name,
                self.usage == old(self).usage,
                self.handler == old(self).handler,
                self.config == old(self).config,
                self.description == old(self).description,
                self.authors == old(self).authors,
                opts0 == old(self).options@,
                target == run(
                    forms_of(old(self).options@),
                    texts(old(self).args@),
                    values_of(old(self).options@),
                    texts(old(self).rest@),
                ),
                self.options@.len() == opts0.len(),
                forall|k: int|
                    0 <= k < opts0.len() ==> (#[trigger] self.options@[k]).same_setup(&opts0[k]),
                forms == forms_of(self.options@),
                run(forms, toks.subrange(i as int, n as int), values_of(self.options@), texts(self.rest@))
                    == target,
            decreases n - i,
        {
            let ghost suffix = toks.subrange(i as int, n as int);
            assert(suffix[0] == self.args@[i as int]@);
            assert(suffix.drop_first() =~= toks.subrange(i + 1, n as int));
            let tok = self.args[i].clone();
            let len = tok.as_str().unicode_len();
            let dashed = len > 0 && tok.as_str().get_char(0) == '-';
            assert(tok@ == suffix[0]);
            assert(dashed == is_option_like(tok@));
            assert((dashed && len == 1) == is_lone_dash(tok@));
            if dashed && len == 1 {
                i = i + 1;
            } else if dashed {
                match self.find_option(&tok) {
                    None => {
                        i = i + 1;
                    },
                    Some(j) => {
                        assert(first_match(forms, suffix[0]) == Some(j as int));
                        assert(forms[j as int] == self.options@[j as int].form());
                        assert(values_of(self.options@)[j as int] == texts(self.options@[j as int].values@));
                        if self.options[j].arg == Arg::Flag {
                            self.store(j, "true".to_owned());
                            i = i + 1;
                        } else if i + 1 < n {
                            let v = self.args[i + 1].clone();
                            assert(suffix.drop_first().drop_first() =~= toks.subrange(i + 2, n as int));
                            self.store(j, v);
                            i = i + 2;
                        } else {
                            assert(suffix.drop_first().len() == 0);
                            assert(forms[j as int].takes_value);
                            assert(run(forms, suffix, values_of(self.options@), texts(self.rest@)) is None);
                            return Err(OptzError::MissingArgument);
                        }
                    },
                }
            } else {
                let ghost rest0 = self.rest@;
                self.rest.push(tok);
                assert(texts(self.rest@) =~= texts(rest0).push(suffix[0]));
                i = i + 1;
            }
        }
        assert(toks.subrange(n as int, n as int) =~= Seq::<Seq<char>>::empty());
        Ok(())
    }

    /// The first option, from index `from` on, whose handler is due.
    fn next_due(&self, from: usize) -> (r: Option<usize>)
        ensures
            match r {
                Some(i) => due_from(self.options@, from as int).len() > 0 && i as int == due_from(
                    self.options@,
                    from as int,
                )[0],
                None => due_from(self.options@, from as int).len() == 0,
            },
    {
        let mut j: usize = from;
        while j < self.options.len()
            invariant
                from <= j,
                due_from(self.options@, j as int) == due_from(self.options@, from as int) || (from
                    > self.options@.len() && j == from),
            decreases self.options@.len() - j,
        {
            if self.options[j].values.len() > 0 && self.options[j].handler.is_some() {
                return Some(j);
            }
            j = j + 1;
        }
        None
    }

    /// Runs the due handlers of the options, in order, then the session's
    /// own handler, and stops at the first failure. A failure comes back as
    /// `Parse` with the handler's message, unchanged. `calls` lists the
    /// options whose handler ran, `session_called` whether the session's ran.
    fn dispatch(&self) -> (out: (Result<(), OptzError>, Ghost<Seq<int>>, Ghost<bool>))
        ensures
            ({
                let (r, calls, session_called) = out;
                let due = due_from(self.options@, 0);
                &&& calls@.len() <= due.len()
                &&& calls@ == due.subrange(0, calls@.len() as int)
                &&& session_called@ ==> calls@ == due && self.handler is Some
                &&& r is Ok ==> calls@ == due && session_called@ == (self.handler is Some)
                &&& r is Err ==> r->Err_0 is Parse && (session_called@ || calls@.len() > 0)
            }),
            out.0 is Err ==> (self.handler is Some || exists|i: int|
                0 <= i < self.options@.len() && self.options@[i].values@.len() > 0
                    && self.options@[i].handler is Some),
            (self.handler is None && forall|i: int|
                0 <= i < self.options@.len() ==> (#[trigger] self.options@[i]).values@.len() == 0
                    || self.options@[i].handler is None) ==> out.0 is Ok,
    {
        let ghost due = due_from(self.options@, 0);
        let ghost mut calls: Seq<int> = Seq::empty();
        let mut from: usize = 0;
        loop
            invariant
                from <= self.options@.len(),
                due == due_from(self.options@, 0),
                due == calls + due_from(self.options@, from as int),
            ensures
                calls == due,
            decreases self.options@.len() - from,
        {
            proof {
                lemma_due_from(self.options@, from as int);
            }
            match self.next_due(from) {
                None => {
                    assert(calls =~= due);
                    break;
                },
                Some(i) => {
                    assert(due_from(self.options@, from as int)[0] < self.options@.len());
                    let n = self.options.len();
                    assert(i < n);
                    let ghost before = calls;
                    proof {
                        calls = calls.push(i as int);
                        assert(due =~= calls + due_from(self.options@, i + 1));
                        assert(before =~= due.subrange(0, before.len() as int));
                        assert(calls =~= due.subrange(0, calls.len() as int));
                        lemma_due_from(self.options@, 0);
                    }
                    let mut ran = Ok(());
                    if let Some(h) = &self.options[i].handler {
                        ran = h.call(self);
                    }
                    if let Err(e) = ran {
                        return (Err(OptzError::Parse(e.message())), Ghost(calls), Ghost(false));
                    }
                    from = i + 1;
                },
            }
        }
        proof {
            lemma_due_from(self.options@, 0);
            assert(calls =~= due.subrange(0, calls.len() as int));
        }
        if let Some(h) = &self.handler {
            let res = h.call(self);
            if let Err(e) = res {
                return (Err(OptzError::Parse(e.message())), Ghost(calls), Ghost(true));
            }
            return (Ok(()), Ghost(calls), Ghost(true));
        }
        (Ok(()), Ghost(calls), Ghost(false))
    }

    /// Adds the help option, runs the pass over the tokens, then the handlers.
    /// A handler's failure ends the parse as `Parse` carrying the handler's
    /// own message unchanged; later handlers, the session's among them, do
    /// not run.
    pub fn parse(self) -> (r: Result<Self, OptzError>)
        ensures
            match self.pass_outcome() {
                None => r == Err::<Self, OptzError>(OptzError::MissingArgument),
                Some(out) => match r {
                    Ok(p) => {
                        &&& p.options@.len() == self.options@.len() + 1
                        &&& forall|i: int|
                            0 <= i < self.options@.len() ==> (#[trigger] p.options@[i]).same_setup(
                                &self.options@[i],
                            )
                        &&& is_help_option(p.options@.last())
                        &&& values_of(p.options@) == out.0
                        &&& texts(p.rest@) == out.1
                        &&& p.args == self.args
                        &&& p.name == self.name
                        &&& p.description == self.description
                        &&& p.authors == self.authors
                        &&& p.handler == self.handler
                        &&& p.config == self.config
                        &&& opt_text(p.usage) == match self.usage {
                            Some(u) => Some(u@),
                            None => Some(default_usage(self.name@)),
                        }
                        &&& p.help_requested == (self.args@.len() == 0 || out.0.last().len() > 0)
                    },
                    Err(e) => e is Parse && (self.handler is Some || exists|i: int|
                        0 <= i < self.options@.len() && out.0[i].len() > 0
                            && self.options@[i].handler is Some),
                },
            },
            self.pass_outcome() is Some && self.handler is None && (forall|i: int|
                0 <= i < self.options@.len() ==> (#[trigger] self.options@[i]).handler is None
                    || self.pass_outcome()->Some_0.0[i].len() == 0) ==> r is Ok,
    {
        let ghost old_self = self;
        let mut s = self;
        if s.usage.is_none() {
            let mut u = "Usage: ".to_owned();
            u.append(s.name.as_str());
            u.append(" [options]");
            s.usage = Some(u);
        }
        let help = Opt::flag("help").description("Show help").short("-h");
        assert(help.form() == help_form());
        s.options.push(help);
        proof {
            assert(forms_of(s.options@) =~= forms_of(old_self.options@).push(help_form()));
            assert(texts(help.values@) =~= Seq::<Seq<char>>::empty());
            assert(values_of(s.options@) =~= values_of(old_self.options@).push(Seq::empty()));
        }
        let n = s.options.len() - 1;
        match s.scan() {
            Err(e) => {
                return Err(e);
            },
            Ok(()) => {},
        }
        assert(s.options@[n as int].same_setup(&help));
        let (res, _calls, _session_called) = s.dispatch();
        if let Err(e) = res {
            proof {
                if s.handler is None {
                    let i = choose|i: int|
                        0 <= i < s.options@.len() && s.options@[i].values@.len() > 0
                            && s.options@[i].handler is Some;
                    assert(i != n);
                    assert(values_of(s.options@)[i] == texts(s.options@[i].values@));
                }
            }
            return Err(e);
        }
        let asked = s.options[n].values.len() > 0;
        proof {
            assert(values_of(s.options@)[n as int] == texts(s.options@[n as int].values@));
        }
        s.help_requested = s.args.len() == 0 || asked;
        proof {
            let out = old_self.pass_outcome()->Some_0;
            assert(s.options@.last() == s.options@[n as int]);
            assert(out.0.last() == out.0[n as int]);
        }
        Ok(s)
    }

    /// The index of the first option called `name` that holds a value.
    fn find_named(&self, name: &str) -> (r: Option<usize>)
        ensures
            match r {
                Some(i) => i < self.options@.len() && lookup(self.options@, name@) == Some(i as int),
                None => lookup(self.options@, name@) is None,
            },
    {
        let key = name.to_owned();
        let mut k: usize = 0;
        while k < self.options.len()
            invariant
                k <= self.options@.len(),
                key@ == name@,
                lookup_from(self.options@, name@, k as int) == lookup(self.options@, name@),
            decreases self.options@.len() - k,
        {
            let opt = &self.options[k];
            if opt.name == key && opt.values.len() > 0 {
                return Some(k);
            }
            k = k + 1;
        }
        None
    }

    /// The first value stored under `name`, as text.
    pub fn raw_value(&self, name: &str) -> (r: Option<String>)
        ensures
            opt_text(r) == first_value(self.options@, name@),
    {
        match self.find_named(name) {
            Some(i) => {
                proof {
                    lemma_lookup_from(self.options@, name@, 0);
                }
                Some(self.options[i].values[0].clone())
            },
            None => None,
        }
    }

    /// All values stored under `name`, as text, in the order they came.
    pub fn raw_values(&self, name: &str) -> (r: Vec<String>)
        ensures
            texts(r@) == values_named(self.options@, name@),
    {
        match self.find_named(name) {
            Some(i) => self.options[i].values.clone(),
            None => {
                let r = Vec::new();
                assert(texts(r@) =~= Seq::<Seq<char>>::empty());
                r
            },
        }
    }

    /// The first value stored under `name`, converted to `T`; `None` where
    /// no option of that name holds a value.
    pub fn get<T: std::str::FromStr>(&self, name: &str) -> (r: Result<Option<T>, OptzError>)
        ensures
            match first_value(self.options@, name@) {
                None => r matches Ok(None),
                Some(v) => r matches Ok(Some(_)) || (r matches Err(OptzError::Parse(m)) && m@
                    == conversion_message(v)),
            },
    {
        match self.raw_value(name) {
            None => Ok(None),
            Some(raw) => match convert::<T>(raw.as_str()) {
                Some(t) => Ok(Some(t)),
                None => Err(conversion_error(&raw)),
            },
        }
    }

    /// All values stored under `name`, each converted to `T`; fails on the
    /// first value that does not convert.
    pub fn get_values<T: std::str::FromStr>(&self, name: &str) -> (r: Result<Vec<T>, OptzError>)
        ensures
            match r {
                Ok(v) => v@.len() == values_named(self.options@, name@).len(),
                Err(e) => e matches OptzError::Parse(m) && exists|k: int|
                    0 <= k < values_named(self.options@, name@).len() && m@ == conversion_message(
                        #[trigger] values_named(self.options@, name@)[k],
                    ),
            },
    {
        let raws = self.raw_values(name);
        let ghost vals = values_named(self.options@, name@);
        let mut out: Vec<T> = Vec::new();
        let mut k: usize = 0;
        while k < raws.len()
            invariant
                k <= raws@.len(),
                texts(raws@) == vals,
                vals == values_named(self.options@, name@),
                out@.len() == k,
            decreases raws@.len() - k,
        {
            match convert::<T>(raws[k].as_str()) {
                Some(t) => out.push(t),
                None => {
                    let e = conversion_error(&raws[k]);
                    assert(vals[k as int] == raws@[k as int]@);
                    return Err(e);
                },
            }
            k = k + 1;
        }
        Ok(out)
    }

    /// Attaches a payload, which `get_config` hands back.
    pub fn config<D>(self, config: D) -> (r: Optz<D>)
        ensures
            r.config == Some(config),
            r.args == self.args,
            r.handler == self.handler,
            r.name == self.name,
            r.usage == self.usage,
            r.description == self.description,
            r.authors == self.authors,
            r.options == self.options,
            r.rest == self.rest,
            r.help_requested == self.help_requested,
    {
        Optz {
            args: self.args,
            handler: self.handler,
            name: self.name,
            usage: self.usage,
            description: self.description,
            authors: self.authors,
            options: self.options,
            config: Some(config),
            rest: self.rest,
            help_requested: self.help_requested,
        }
    }

    /// The payload, where one was attached.
    pub fn get_config(&self) -> (r: Option<&C>)
        ensures
            match self.config {
                Some(c) => r == Some(&c),
                None => r is None,
            },
    {
        match &self.config {
            Some(c) => Some(c),
            None => None,
        }
    }

    /// The text that describes the program.
    pub fn description(self, text: &str) -> (r: Self)
        ensures
            opt_text(r.description) == Some(text@),
            r == (Optz { description: r.description, ..self }),
    {
        Optz { description: Some(text.to_owned()), ..self }
    }

    /// The handler that runs after those of the options.
    pub fn handler(self, handler: Callback) -> (r: Self)
        ensures
            r == (Optz { handler: Some(handler), ..self }),
    {
        Optz { handler: Some(handler), ..self }
    }

    /// Registers one more option, after the others.
    pub fn option(self, opt: Opt) -> (r: Self)
        ensures
            r.options@ == self.options@.push(opt),
            r == (Optz { options: r.options, ..self }),
    {
        let mut s = self;
        s.options.push(opt);
        s
    }

    /// The usage line, in place of the one the parse would make.
    pub fn usage(self, text: &str) -> (r: Self)
        ensures
            opt_text(r.usage) == Some(text@),
            r == (Optz { usage: r.usage, ..self }),
    {
        Optz { usage: Some(text.to_owned()), ..self }
    }

    /// The options, in order, the help option last once parsed.
    pub fn into_options(self) -> (r: Vec<Opt>)
        ensures
            r == self.options,
    {
        self.options
    }

    /// The help: the usage line where there is one, then a line per option.
    pub fn help_text(&self) -> (r: String)
        ensures
            r@ == match self.usage {
                Some(u) => u@ + "\n"@,
                None => Seq::empty(),
            } + help_lines(self.options@),
    {
        let mut out = String::new();
        if let Some(u) = &self.usage {
            out.append(u.as_str());
            out.append("\n");
        }
        let ghost head = out@;
        let mut k: usize = 0;
        while k < self.options.len()
            invariant
                k <= self.options@.len(),
                out@ == head + help_lines(self.options@.subrange(0, k as int)),
            decreases self.options@.len() - k,
        {
            let ghost before = out@;
            let line = help_line_of(&self.options[k]);
            out.append(line.as_str());
            proof {
                let opts = self.options@.subrange(0, k + 1);
                assert(opts.drop_last() =~= self.options@.subrange(0, k as int));
                assert(out@ =~= before + help_line(self.options@[k as int]));
            }
            k = k + 1;
        }
        assert(self.options@.subrange(0, self.options@.len() as int) =~= self.options@);
        out
    }
}

impl<C> SessionView for Optz<C> {
    fn session_name(&self) -> (r: String)
        ensures
            r@ == self.name@,
    {
        self.name.clone()
    }

    fn option_values(&self, name: &str) -> (r: Vec<String>)
        ensures
            texts(r@) == values_named(self.options@, name@),
    {
        self.raw_values(name)
    }

    fn rest_args(&self) -> (r: Vec<String>)
        ensures
            r@ == self.rest@,
    {
        clone_values(&self.rest)
    }
}

impl<C> Default for Optz<C> {
    fn default() -> (r: Self)
        ensures
            r.args@.len() == 0,
            r.handler is None,
            r.name@.len() == 0,
            r.usage is None,
            r.description is None,
            r.authors@.len() == 0,
            r.options@.len() == 0,
            r.config is None,
            r.rest@.len() == 0,
            !r.help_requested,
    {
        Optz {
            args: Vec::new(),
            handler: None,
            name: String::new(),
            usage: None,
            description: None,
            authors: Vec::new(),
            options: Vec::new(),
            config: None,
            rest: Vec::new(),
            help_requested: false,
        }
    }
}

} // verus!
