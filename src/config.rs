use vstd::prelude::*;

use crate::error::CliError;
use crate::text::{lacks_char, lemma_line_unique, occurs_at, read_line};

verus! {

/// The views of a sequence of strings.
pub open spec fn views(v: Seq<String>) -> Seq<Seq<char>> {
    v.map_values(|s: String| s@)
}

/// The line that stores one launcher argument.
pub open spec fn arg_line(a: Seq<char>) -> Seq<char> {
    "arg="@ + a + "\n"@
}

/// The persisted text of a configuration with the launcher arguments `args`.
pub open spec fn config_text(args: Seq<Seq<char>>) -> Seq<char>
    decreases args.len(),
{
    if args.len() == 0 {
        Seq::empty()
    } else {
        arg_line(args[0]) + config_text(args.drop_first())
    }
}

/// Launcher arguments that the configuration text can hold: none has a line break.
pub open spec fn storable(args: Seq<Seq<char>>) -> bool {
    forall|i: int| 0 <= i < args.len() ==> lacks_char(#[trigger] args[i], '\n')
}

pub proof fn lemma_config_text_push(args: Seq<Seq<char>>, a: Seq<char>)
    ensures
        config_text(args.push(a)) == config_text(args) + arg_line(a),
    decreases args.len(),
{
    if args.len() == 0 {
        assert(args.push(a).drop_first() =~= Seq::<Seq<char>>::empty());
        assert(config_text(Seq::<Seq<char>>::empty()) =~= Seq::<char>::empty());
        assert(config_text(args.push(a)) =~= arg_line(a));
    } else {
        assert(args.push(a).drop_first() =~= args.drop_first().push(a));
        lemma_config_text_push(args.drop_first(), a);
        assert(config_text(args.push(a)) =~= config_text(args) + arg_line(a));
    }
}

/// Process-wide preferences read at invocation time.
pub struct Config {
    /// Arguments placed before the tool's own arguments, in order.
    pub launcher_args: Vec<String>,
}

impl View for Config {
    type V = Seq<Seq<char>>;

    open spec fn view(&self) -> Seq<Seq<char>> {
        views(self.launcher_args@)
    }
}

impl Config {
    /// The configuration in force when no configuration file exists.
    pub fn empty() -> (r: Config)
        ensures
            r@ == Seq::<Seq<char>>::empty(),
    {
        let r = Config { launcher_args: Vec::new() };
        assert(r@ =~= Seq::<Seq<char>>::empty());
        r
    }

    /// Loads the configuration from the persisted text, where a file exists
    /// (`Some`); with no file (`None`) there are no launcher arguments.
    pub fn load(contents: Option<&str>) -> (r: Result<Config, CliError>)
        ensures
            match contents {
                None => r matches Ok(c) && c@ == Seq::<Seq<char>>::empty(),
                Some(text) => match r {
                    Ok(c) => storable(c@) && text@ == config_text(c@),
                    Err(e) => e == CliError::ConfigUnreadable && forall|a: Seq<Seq<char>>|
                        storable(a) ==> text@ != config_text(a),
                },
            },
    {
        match contents {
            None => Ok(Config::empty()),
            Some(text) => match parse_config(text) {
                Some(launcher_args) => Ok(Config { launcher_args }),
                None => Err(CliError::ConfigUnreadable),
            },
        }
    }
}

/// Parses configuration text into its launcher arguments.
pub fn parse_config(text: &str) -> (r: Option<Vec<String>>)
    ensures
        match r {
            Some(args) => storable(views(args@)) && text@ == config_text(views(args@)),
            None => forall|a: Seq<Seq<char>>| storable(a) ==> text@ != config_text(a),
        },
{
    proof {
        reveal_strlit("arg=");
        reveal_strlit("\n");
    }
    let ghost t = text@;
    let n = text.unicode_len();
    let mut args: Vec<String> = Vec::new();
    let mut pos: usize = 0;
    proof {
        assert(views(args@) =~= Seq::<Seq<char>>::empty());
        assert(t.subrange(0, 0) =~= Seq::<char>::empty());
        assert forall|a: Seq<Seq<char>>| storable(a) && config_text(a) == t implies a.take(0)
            == views(args@) && config_text(a.skip(0)) == t.subrange(0, n as int) by {
            assert(a.take(0) =~= views(args@));
            assert(a.skip(0) =~= a);
            assert(t.subrange(0, n as int) =~= t);
        }
    }
    while pos < n
        invariant
            n == t.len(),
            t == text@,
            pos <= n,
            storable(views(args@)),
            t.subrange(0, pos as int) == config_text(views(args@)),
            forall|a: Seq<Seq<char>>|
                storable(a) && config_text(a) == t ==> args@.len() <= a.len() && a.take(
                    args@.len() as int,
                ) == views(args@) && config_text(a.skip(args@.len() as int)) == t.subrange(
                    pos as int,
                    n as int,
                ),
        decreases n - pos,
    {
        let ghost k = args@.len() as int;
        let ghost before = views(args@);
        match read_line(text, pos, "arg=") {
            None => {
                assert forall|a: Seq<Seq<char>>| storable(a) implies t != config_text(a) by {
                    if config_text(a) == t {
                        let b = a.skip(k);
                        if b.len() == 0 {
                            assert(config_text(b) =~= Seq::<char>::empty());
                        } else {
                            assert(lacks_char(a[k], '\n'));
                            assert(b[0] == a[k]);
                            assert(t.subrange(pos as int, pos + arg_line(b[0]).len()) =~= arg_line(b[0]));
                        }
                    }
                }
                return None;
            },
            Some((v, next)) => {
                proof {
                    reveal_strlit("arg=");
                    reveal_strlit("\n");
                    let w = "arg="@ + v@ + "\n"@;
                    assert(occurs_at(t, pos as int, w));
                    assert(w.len() == 4 + v@.len() + 1);
                    assert(next <= n);
                    lemma_config_text_push(before, v@);
                    assert(views(args@.push(v)) =~= before.push(v@));
                    assert(t.subrange(0, next as int) =~= t.subrange(0, pos as int) + arg_line(v@));
                    assert forall|a: Seq<Seq<char>>| storable(a) && config_text(a) == t implies k + 1
                        <= a.len() && a.take(k + 1) == before.push(v@) && config_text(a.skip(k + 1))
                        == t.subrange(next as int, n as int) by {
                        let b = a.skip(k);
                        if b.len() == 0 {
                            assert(config_text(b) =~= Seq::<char>::empty());
                            assert(t.subrange(pos as int, n as int).len() > 0);
                        }
                        assert(b[0] == a[k]);
                        assert(lacks_char(a[k], '\n'));
                        let l = arg_line(b[0]);
                        assert(t.subrange(pos as int, pos + l.len()) =~= l);
                        lemma_line_unique(t, pos as int, "arg="@, b[0], v@);
                        assert(a.take(k + 1) =~= a.take(k).push(a[k]));
                        assert(a.skip(k + 1) =~= b.drop_first());
                        assert(t.subrange(next as int, n as int) =~= t.subrange(pos as int, n as int).subrange(l.len() as int, n - pos));
                        assert(config_text(b).subrange(l.len() as int, config_text(b).len() as int) =~= config_text(b.drop_first()));
                    }
                    assert forall|i: int| 0 <= i < before.len() + 1 implies lacks_char(#[trigger] before.push(v@)[i], '\n') by {
                        if i < before.len() {
                            assert(lacks_char(before[i], '\n'));
                        }
                    }
                }
                args.push(v);
                pos = next;
            },
        }
    }
    assert(t.subrange(0, n as int) =~= t);
    Some(args)
}

} // verus!
