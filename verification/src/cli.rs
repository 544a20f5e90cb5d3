//! The command line, and what the daemon does on its way to serving clients.

use crate::enclave::{policy_named, Policy};
use crate::text::{each, opt, same};
use vstd::prelude::*;

verus! {

/// What the command line asks for.
pub struct Options {
    pub config: Option<String>,
    pub health: bool,
    pub generate: bool,
    pub pubkey: bool,
    pub force: bool,
    pub policy: Policy,
}

/// What the command line asks for, without the strings.
pub struct OptionsView {
    pub config: Option<Seq<char>>,
    pub health: bool,
    pub generate: bool,
    pub pubkey: bool,
    pub force: bool,
    pub policy: Policy,
}

impl View for Options {
    type V = OptionsView;

    open spec fn view(&self) -> OptionsView {
        OptionsView {
            config: opt(self.config),
            health: self.health,
            generate: self.generate,
            pubkey: self.pubkey,
            force: self.force,
            policy: self.policy,
        }
    }
}

/// Where reading the command line ends.
pub enum Outcome {
    /// Do what was asked for.
    Run,
    /// Say how the program is used, and end.
    Help,
    /// Say which policies there are, and end with an error.
    BadPolicy,
}

/// What was made of the command line.
pub struct Parsed {
    pub outcome: Outcome,
    pub options: Options,
    /// The arguments that were not understood, in order.
    pub ignored: Vec<String>,
}

/// What was made of the command line, without the strings.
pub struct ParsedView {
    pub outcome: Outcome,
    pub options: OptionsView,
    pub ignored: Seq<Seq<char>>,
}

impl View for Parsed {
    type V = ParsedView;

    open spec fn view(&self) -> ParsedView {
        ParsedView {
            outcome: self.outcome,
            options: self.options@,
            ignored: each(self.ignored@),
        }
    }
}

/// What is asked for before anything was read.
pub open spec fn no_options() -> OptionsView {
    OptionsView {
        config: None,
        health: false,
        generate: false,
        pubkey: false,
        force: false,
        policy: Policy::UserPresence,
    }
}

/// The value behind an option.
pub open spec fn value_of(args: Seq<Seq<char>>) -> Option<Seq<char>> {
    if args.len() > 1 {
        Some(args[1])
    } else {
        None
    }
}

/// What follows an option and its value.
pub open spec fn past_value(args: Seq<Seq<char>>) -> Seq<Seq<char>> {
    if args.len() > 1 {
        args.skip(2)
    } else {
        seq![]
    }
}

/// What is made of the arguments `args`, behind those that gave `o` and
/// `ignored`.
pub open spec fn parsed(
    args: Seq<Seq<char>>,
    o: OptionsView,
    ignored: Seq<Seq<char>>,
) -> ParsedView
    decreases args.len(),
{
    if args.len() == 0 {
        ParsedView { outcome: Outcome::Run, options: o, ignored }
    } else {
        let a = args[0];
        let rest = args.skip(1);
        if a == "--config"@ {
            parsed(past_value(args), OptionsView { config: value_of(args), ..o }, ignored)
        } else if a == "--health"@ {
            parsed(rest, OptionsView { health: true, ..o }, ignored)
        } else if a == "--generate-key"@ {
            parsed(rest, OptionsView { generate: true, ..o }, ignored)
        } else if a == "--pubkey"@ {
            parsed(rest, OptionsView { pubkey: true, ..o }, ignored)
        } else if a == "--force"@ {
            parsed(rest, OptionsView { force: true, ..o }, ignored)
        } else if a == "--policy"@ {
            let word = match value_of(args) {
                Some(w) => w,
                None => seq![],
            };
            match policy_named(word) {
                Some(policy) => parsed(past_value(args), OptionsView { policy, ..o }, ignored),
                None => ParsedView { outcome: Outcome::BadPolicy, options: o, ignored },
            }
        } else if a == "--help"@ || a == "-h"@ {
            ParsedView { outcome: Outcome::Help, options: o, ignored }
        } else {
            parsed(rest, o, ignored.push(a))
        }
    }
}

/// Read the command line, without the name of the program.
#[verifier::rlimit(30)]
pub fn parse_args(args: &Vec<String>) -> (p: Parsed)
    ensures
        p@ == parsed(each(args@), no_options(), seq![]),
{
    let mut o = Options {
        config: None,
        health: false,
        generate: false,
        pubkey: false,
        force: false,
        policy: Policy::UserPresence,
    };
    let mut ignored: Vec<String> = Vec::new();
    let mut i: usize = 0;
    let ghost all = each(args@);
    assert(all.skip(0) =~= all);
    assert(each(ignored@) =~= seq![]);
    while i < args.len()
        invariant
            all == each(args@),
            0 <= i <= args@.len(),
            parsed(all.skip(i as int), o@, each(ignored@)) == parsed(all, no_options(), seq![]),
        decreases args@.len() - i,
    {
        let a = args[i].as_str();
        let ghost left = all.skip(i as int);
        proof {
            assert(left[0] == a@);
            assert(left.skip(1) =~= all.skip(i + 1));
            if left.len() > 1 {
                assert(left[1] == args@[i + 1]@);
                assert(left.skip(2) =~= all.skip(i + 2));
            } else {
                assert(all.skip(args@.len() as int) =~= seq![]);
            }
        }
        if same(a, "--config") {
            if args.len() - i > 1 {
                o.config = Some(args[i + 1].clone());
                i = i + 2;
            } else {
                o.config = None;
                i = args.len();
            }
        } else if same(a, "--health") {
            o.health = true;
            i = i + 1;
        } else if same(a, "--generate-key") {
            o.generate = true;
            i = i + 1;
        } else if same(a, "--pubkey") {
            o.pubkey = true;
            i = i + 1;
        } else if same(a, "--force") {
            o.force = true;
            i = i + 1;
        } else if same(a, "--policy") {
            let word = if args.len() - i > 1 {
                args[i + 1].clone()
            } else {
                String::new()
            };
            match Policy::parse(word.as_str()) {
                Some(p) => {
                    o.policy = p;
                    if args.len() - i > 1 {
                        i = i + 2;
                    } else {
                        i = args.len();
                    }
                },
                None => return Parsed { outcome: Outcome::BadPolicy, options: o, ignored },
            }
        } else if same(a, "--help") || same(a, "-h") {
            return Parsed { outcome: Outcome::Help, options: o, ignored };
        } else {
            let ghost before = each(ignored@);
            ignored.push(args[i].clone());
            assert(each(ignored@) =~= before.push(a@));
            i = i + 1;
        }
    }
    Parsed { outcome: Outcome::Run, options: o, ignored }
}

/// What the program is to do.
#[derive(Debug, Clone, Copy, PartialEq, Eq, Structural)]
pub enum Mode {
    /// Make a key.
    Generate,
    /// Print the public key.
    PubKey,
    /// Probe a running daemon.
    Health,
    /// Serve clients.
    Serve,
}

/// What the program is to do, where several things were asked for: making a key
/// comes first, then printing it, then probing.
pub fn mode(o: &Options) -> (m: Mode)
    ensures
        m == (if o.generate {
            Mode::Generate
        } else if o.pubkey {
            Mode::PubKey
        } else if o.health {
            Mode::Health
        } else {
            Mode::Serve
        }),
{
    if o.generate {
        Mode::Generate
    } else if o.pubkey {
        Mode::PubKey
    } else if o.health {
        Mode::Health
    } else {
        Mode::Serve
    }
}

// ---------------------------------------------------------------------------
// The socket
// ---------------------------------------------------------------------------

/// What is known about the socket to listen on.
pub enum BindEvent {
    /// Whether there is a file in its place.
    Found(bool),
    /// Whether somebody answers there.
    Probed(bool),
}

/// What to do about the socket to listen on.
#[derive(Debug, Clone, Copy, PartialEq, Eq, Structural)]
pub enum BindAction {
    /// See whether somebody answers there.
    Probe,
    /// Take the file away, then listen.
    ClearAndListen,
    Listen,
    /// Leave it to the one that listens there.
    StandDown,
}

/// What to do about the socket to listen on: a stale one is cleared, and a live
/// one is never stolen.
pub fn bind(event: BindEvent) -> (action: BindAction)
    ensures
        action == (match event {
            BindEvent::Found(there) => if there {
                BindAction::Probe
            } else {
                BindAction::Listen
            },
            BindEvent::Probed(answered) => if answered {
                BindAction::StandDown
            } else {
                BindAction::ClearAndListen
            },
        }),
{
    match event {
        BindEvent::Found(there) => if there {
            BindAction::Probe
        } else {
            BindAction::Listen
        },
        BindEvent::Probed(answered) => if answered {
            BindAction::StandDown
        } else {
            BindAction::ClearAndListen
        },
    }
}

// ---------------------------------------------------------------------------
// Laws
// ---------------------------------------------------------------------------

/// The word stands for an option that is on or off.
pub open spec fn is_switch(a: Seq<char>) -> bool {
    a == "--health"@ || a == "--generate-key"@ || a == "--pubkey"@ || a == "--force"@
}

/// The word stands for an option with a value, or ends the reading.
pub open spec fn is_special(a: Seq<char>) -> bool {
    a == "--config"@ || a == "--policy"@ || a == "--help"@ || a == "-h"@
}

proof fn lemma_plain(args: Seq<Seq<char>>, o: OptionsView, ignored: Seq<Seq<char>>)
    requires
        forall|i: int| 0 <= i < args.len() ==> !is_special(#[trigger] args[i]),
    ensures
        ({
            let p = parsed(args, o, ignored);
            &&& p.outcome == Outcome::Run
            &&& p.options.config == o.config
            &&& p.options.policy == o.policy
            &&& p.options.health == (o.health || args.contains("--health"@))
            &&& p.options.generate == (o.generate || args.contains("--generate-key"@))
            &&& p.options.pubkey == (o.pubkey || args.contains("--pubkey"@))
            &&& p.options.force == (o.force || args.contains("--force"@))
            &&& forall|a: Seq<char>| #[trigger]
                p.ignored.contains(a) <==> ignored.contains(a) || (args.contains(a) && !is_switch(
                    a,
                ))
        }),
    decreases args.len(),
{
    if args.len() > 0 {
        let a = args[0];
        let rest = args.skip(1);
        assert(!is_special(args[0]));
        assert forall|i: int| 0 <= i < rest.len() implies !is_special(#[trigger] rest[i]) by {
            assert(rest[i] == args[i + 1]);
        }
        lemma_front(args);
        lemma_switches_differ();
        if a == "--health"@ {
            lemma_plain(rest, OptionsView { health: true, ..o }, ignored);
        } else if a == "--generate-key"@ {
            lemma_plain(rest, OptionsView { generate: true, ..o }, ignored);
        } else if a == "--pubkey"@ {
            lemma_plain(rest, OptionsView { pubkey: true, ..o }, ignored);
        } else if a == "--force"@ {
            lemma_plain(rest, OptionsView { force: true, ..o }, ignored);
        } else {
            lemma_plain(rest, o, ignored.push(a));
            assert forall|b: Seq<char>| #[trigger]
                ignored.push(a).contains(b) <==> ignored.contains(b) || b == a by {
                lemma_push_contains(ignored, a, b);
            }
        }
    }
}

proof fn lemma_push_contains(s: Seq<Seq<char>>, a: Seq<char>, b: Seq<char>)
    ensures
        s.push(a).contains(b) <==> s.contains(b) || b == a,
{
    let t = s.push(a);
    assert(t[s.len() as int] == a);
    if s.contains(b) {
        let i = choose|i: int| 0 <= i < s.len() && s[i] == b;
        assert(t[i] == b);
    }
    if t.contains(b) && b != a {
        let i = choose|i: int| 0 <= i < t.len() && t[i] == b;
        assert(s[i] == b);
    }
}

proof fn lemma_front(args: Seq<Seq<char>>)
    requires
        args.len() > 0,
    ensures
        forall|b: Seq<char>| #[trigger]
            args.contains(b) <==> b == args[0] || args.skip(1).contains(b),
{
    let rest = args.skip(1);
    assert forall|b: Seq<char>| #[trigger] args.contains(b) <==> b == args[0] || rest.contains(
        b,
    ) by {
        if args.contains(b) && b != args[0] {
            let i = choose|i: int| 0 <= i < args.len() && args[i] == b;
            assert(rest[i - 1] == b);
        }
        if rest.contains(b) {
            let i = choose|i: int| 0 <= i < rest.len() && rest[i] == b;
            assert(args[i + 1] == b);
        }
        assert(args.contains(args[0]));
    }
}

proof fn lemma_switches_differ()
    ensures
        "--health"@ != "--generate-key"@,
        "--health"@ != "--pubkey"@,
        "--health"@ != "--force"@,
        "--generate-key"@ != "--pubkey"@,
        "--generate-key"@ != "--force"@,
        "--pubkey"@ != "--force"@,
{
    reveal_strlit("--health");
    reveal_strlit("--generate-key");
    reveal_strlit("--pubkey");
    reveal_strlit("--force");
    assert("--health"@[2] == 'h');
    assert("--generate-key"@[2] == 'g');
    assert("--pubkey"@[2] == 'p');
    assert("--force"@[2] == 'f');
}

/// Where no option with a value and no call for help is given, an option is on
/// just where its word is given, wherever that stands, and every other word is
/// passed over.
pub proof fn switches_are_on_where_given(args: &Vec<String>, p: Parsed)
    requires
        call_ensures(parse_args, (args,), p),
        forall|i: int| 0 <= i < args@.len() ==> !is_special((#[trigger] args@[i])@),
    ensures
        p.outcome == Outcome::Run,
        p.options.config is None,
        p.options.policy == Policy::UserPresence,
        p.options.health <==> each(args@).contains("--health"@),
        p.options.generate <==> each(args@).contains("--generate-key"@),
        p.options.pubkey <==> each(args@).contains("--pubkey"@),
        p.options.force <==> each(args@).contains("--force"@),
        forall|a: Seq<char>| #[trigger]
            each(p.ignored@).contains(a) <==> each(args@).contains(a) && !is_switch(a),
{
    let all = each(args@);
    assert forall|i: int| 0 <= i < all.len() implies !is_special(#[trigger] all[i]) by {
        assert(all[i] == args@[i]@);
    }
    lemma_plain(all, no_options(), seq![]);
    assert(p@ == parsed(all, no_options(), seq![]));
    assert forall|a: Seq<char>| #[trigger]
        each(p.ignored@).contains(a) <==> all.contains(a) && !is_switch(a) by {
        assert(!Seq::<Seq<char>>::empty().contains(a));
        assert(p@.ignored.contains(a) == each(p.ignored@).contains(a));
    }
    assert(opt(p.options.config) == None::<Seq<char>>);
}

/// Two ways of asking for the same, up to what follows them.
proof fn lemma_start(
    args: Seq<Seq<char>>,
    o: OptionsView,
    q: OptionsView,
    ignored: Seq<Seq<char>>,
)
    requires
        !args.contains("--config"@),
        !args.contains("--policy"@),
        q == (OptionsView { config: q.config, policy: q.policy, ..o }),
    ensures
        ({
            let a = parsed(args, o, ignored);
            let b = parsed(args, q, ignored);
            &&& b.outcome == a.outcome
            &&& b.ignored == a.ignored
            &&& b.options == (OptionsView { config: q.config, policy: q.policy, ..a.options })
        }),
    decreases args.len(),
{
    if args.len() > 0 {
        let rest = args.skip(1);
        lemma_front(args);
        let a = args[0];
        assert(args.contains(a));
        if a == "--health"@ {
            lemma_start(
                rest,
                OptionsView { health: true, ..o },
                OptionsView { health: true, ..q },
                ignored,
            );
        } else if a == "--generate-key"@ {
            lemma_start(
                rest,
                OptionsView { generate: true, ..o },
                OptionsView { generate: true, ..q },
                ignored,
            );
        } else if a == "--pubkey"@ {
            lemma_start(
                rest,
                OptionsView { pubkey: true, ..o },
                OptionsView { pubkey: true, ..q },
                ignored,
            );
        } else if a == "--force"@ {
            lemma_start(
                rest,
                OptionsView { force: true, ..o },
                OptionsView { force: true, ..q },
                ignored,
            );
        } else if a == "--help"@ || a == "-h"@ {
        } else {
            lemma_start(rest, o, q, ignored.push(a));
        }
    }
}

/// An option with a value takes the word behind it, whatever that is, and the rest
/// is read as if neither stood there.
pub proof fn value_belongs_to_its_option(
    args: &Vec<String>,
    rest: &Vec<String>,
    p: Parsed,
    q: Parsed,
    word: &str,
    named: Option<Policy>,
)
    requires
        call_ensures(parse_args, (args,), p),
        call_ensures(parse_args, (rest,), q),
        args@.len() >= 2,
        rest@ == args@.skip(2),
        !each(rest@).contains("--config"@),
        !each(rest@).contains("--policy"@),
        word@ == args@[1]@,
        call_ensures(Policy::parse, (word,), named),
    ensures
        args@[0]@ == "--config"@ || (args@[0]@ == "--policy"@ && named is Some) ==> {
            &&& p.outcome == q.outcome
            &&& each(p.ignored@) == each(q.ignored@)
            &&& p.options.health == q.options.health
            &&& p.options.generate == q.options.generate
            &&& p.options.pubkey == q.options.pubkey
            &&& p.options.force == q.options.force
        },
        args@[0]@ == "--config"@ ==> opt(p.options.config) == Some(word@) && p.options.policy
            == q.options.policy,
        args@[0]@ == "--policy"@ && named is Some ==> p.options.policy == named->0 && opt(
            p.options.config,
        ) == opt(q.options.config),
        args@[0]@ == "--policy"@ && named is None ==> p.outcome == Outcome::BadPolicy,
        args@[0]@ == "--help"@ || args@[0]@ == "-h"@ ==> p.outcome == Outcome::Help,
{
    let all = each(args@);
    let o = no_options();
    assert(all.skip(2) =~= each(rest@));
    assert(all[0] == args@[0]@ && all[1] == args@[1]@);
    lemma_words_differ();
    assert(past_value(all) == each(rest@));
    assert(p@ == parsed(all, o, seq![]));
    assert(q@ == parsed(each(rest@), o, seq![]));
    lemma_start(each(rest@), o, o, seq![]);
    if all[0] == "--config"@ {
        let with = OptionsView { config: Some(word@), ..o };
        assert(p@ == parsed(each(rest@), with, seq![]));
        lemma_start(each(rest@), o, with, seq![]);
    } else if all[0] == "--policy"@ {
        if named is Some {
            let with = OptionsView { policy: named->0, ..o };
            assert(p@ == parsed(each(rest@), with, seq![]));
            lemma_start(each(rest@), o, with, seq![]);
        }
    }
}

proof fn lemma_words_differ()
    ensures
        "--config"@ != "--policy"@,
        "--help"@ != "--config"@ && "--help"@ != "--policy"@ && !is_switch("--help"@),
        "-h"@ != "--config"@ && "-h"@ != "--policy"@ && !is_switch("-h"@),
        !is_switch("--config"@) && !is_switch("--policy"@),
{
    reveal_strlit("--config");
    reveal_strlit("--policy");
    reveal_strlit("--help");
    reveal_strlit("-h");
    reveal_strlit("--health");
    reveal_strlit("--generate-key");
    reveal_strlit("--pubkey");
    reveal_strlit("--force");
    assert("--config"@[2] == 'c');
    assert("--policy"@[3] == 'o');
    assert("--pubkey"@[3] == 'u');
    assert("--help"@.len() == 6 && "-h"@.len() == 2 && "--config"@.len() == 8 && "--policy"@.len()
        == 8 && "--health"@.len() == 8 && "--generate-key"@.len() == 14 && "--pubkey"@.len() == 8
        && "--force"@.len() == 7);
    assert("--health"@[2] == 'h');
    assert("--policy"@[2] == 'p');
    assert("--generate-key"@[2] == 'g');
}

/// An option that ends the command line without its value: no configuration file
/// is named, and no policy.
pub proof fn value_may_be_missing(args: &Vec<String>, p: Parsed)
    requires
        call_ensures(parse_args, (args,), p),
        args@.len() == 1,
    ensures
        args@[0]@ == "--config"@ ==> p.outcome == Outcome::Run && p.options.config is None,
        args@[0]@ == "--policy"@ ==> p.outcome == Outcome::BadPolicy,
        args@[0]@ == "--help"@ || args@[0]@ == "-h"@ ==> p.outcome == Outcome::Help,
{
    let all = each(args@);
    assert(all[0] == args@[0]@);
    lemma_words_differ();
    reveal_strlit("none");
    reveal_strlit("presence");
    reveal_strlit("biometry");
    assert(p@ == parsed(all, no_options(), seq![]));
    reveal_with_fuel(parsed, 2);
    assert("none"@.len() == 4 && "presence"@.len() == 8 && "biometry"@.len() == 8);
    if all[0] == "--config"@ {
        assert(opt(p.options.config) == None::<Seq<char>>);
    }
    if all[0] == "--policy"@ {
        assert(policy_named(seq![]) is None);
    }
}

/// Making a key comes before printing it, that before probing, and serving is what
/// is left.
pub proof fn wishes_have_an_order(o: &Options, m: Mode)
    requires
        call_ensures(mode, (o,), m),
    ensures
        m == Mode::Generate <==> o.generate,
        m == Mode::PubKey <==> o.pubkey && !o.generate,
        m == Mode::Health <==> o.health && !o.pubkey && !o.generate,
        m == Mode::Serve <==> !o.health && !o.pubkey && !o.generate,
{
}

/// A socket is cleared only once nobody answered there, never where somebody did,
/// and nobody is asked where there is none.
pub proof fn live_socket_is_never_cleared(
    there: bool,
    answered: bool,
    found: BindAction,
    probed: BindAction,
)
    requires
        call_ensures(bind, (BindEvent::Found(there),), found),
        call_ensures(bind, (BindEvent::Probed(answered),), probed),
    ensures
        found == BindAction::Probe <==> there,
        found == BindAction::Listen <==> !there,
        probed == BindAction::StandDown <==> answered,
        probed == BindAction::ClearAndListen <==> !answered,
{
}

/// Of an option that is given twice the last value counts.
pub proof fn last_value_counts(
    twice: &Vec<String>,
    once: &Vec<String>,
    p: Parsed,
    q: Parsed,
    word: &str,
    named: Option<Policy>,
)
    requires
        call_ensures(parse_args, (twice,), p),
        call_ensures(parse_args, (once,), q),
        twice@.len() >= 4,
        once@ == twice@.skip(2),
        twice@[0]@ == twice@[2]@,
        word@ == twice@[1]@,
        call_ensures(Policy::parse, (word,), named),
        twice@[0]@ == "--config"@ || (twice@[0]@ == "--policy"@ && named is Some),
    ensures
        p.outcome == q.outcome,
        p.outcome != Outcome::BadPolicy ==> p.options@ == q.options@,
        each(p.ignored@) == each(q.ignored@),
{
    let all = each(twice@);
    let few = each(once@);
    let o = no_options();
    assert(all.skip(2) =~= few);
    assert(all[0] == twice@[0]@ && all[1] == twice@[1]@);
    assert(few[0] == twice@[2]@ && few[1] == twice@[3]@);
    assert(p@ == parsed(all, o, seq![]));
    assert(q@ == parsed(few, o, seq![]));
    lemma_words_differ();
    let tail = past_value(few);
    if all[0] == "--config"@ {
        assert(p@ == parsed(few, OptionsView { config: Some(all[1]), ..o }, seq![]));
        assert(p@ == parsed(tail, OptionsView { config: Some(few[1]), ..o }, seq![]));
    } else {
        assert(p@ == parsed(few, OptionsView { policy: named->0, ..o }, seq![]));
    }
}

/// The flags of two requests taken together.
pub open spec fn both(o: OptionsView, d: OptionsView) -> OptionsView {
    OptionsView {
        config: o.config,
        health: o.health || d.health,
        generate: o.generate || d.generate,
        pubkey: o.pubkey || d.pubkey,
        force: o.force || d.force,
        policy: o.policy,
    }
}

#[verifier::rlimit(30)]
proof fn lemma_carried(
    args: Seq<Seq<char>>,
    o: OptionsView,
    d: OptionsView,
    pre: Seq<Seq<char>>,
    ignored: Seq<Seq<char>>,
)
    ensures
        ({
            let a = parsed(args, o, ignored);
            let b = parsed(args, both(o, d), pre + ignored);
            &&& b.outcome == a.outcome
            &&& b.options == both(a.options, d)
            &&& b.ignored == pre + a.ignored
        }),
    decreases args.len(),
{
    if args.len() > 0 {
        let rest = args.skip(1);
        let a = args[0];
        if a == "--config"@ {
            lemma_carried(past_value(args), OptionsView { config: value_of(args), ..o }, d, pre, ignored);
        } else if a == "--health"@ {
            lemma_carried(rest, OptionsView { health: true, ..o }, d, pre, ignored);
        } else if a == "--generate-key"@ {
            lemma_carried(rest, OptionsView { generate: true, ..o }, d, pre, ignored);
        } else if a == "--pubkey"@ {
            lemma_carried(rest, OptionsView { pubkey: true, ..o }, d, pre, ignored);
        } else if a == "--force"@ {
            lemma_carried(rest, OptionsView { force: true, ..o }, d, pre, ignored);
        } else if a == "--policy"@ {
            let word = match value_of(args) {
                Some(w) => w,
                None => seq![],
            };
            if let Some(policy) = policy_named(word) {
                lemma_carried(past_value(args), OptionsView { policy, ..o }, d, pre, ignored);
            }
        } else if a == "--help"@ || a == "-h"@ {
        } else {
            lemma_carried(rest, o, d, pre, ignored.push(a));
            assert(pre + ignored.push(a) =~= (pre + ignored).push(a));
        }
    }
}

/// A word in front that is no option with a value and no call for help changes
/// nothing of how the rest is read: a known one switches its option on, and any
/// other is passed over.
pub proof fn word_in_front_is_added(args: &Vec<String>, rest: &Vec<String>, p: Parsed, q: Parsed)
    requires
        call_ensures(parse_args, (args,), p),
        call_ensures(parse_args, (rest,), q),
        args@.len() > 0,
        rest@ == args@.skip(1),
        !is_special(args@[0]@),
    ensures
        ({
            let a = args@[0]@;
            &&& p.outcome == q.outcome
            &&& opt(p.options.config) == opt(q.options.config)
            &&& p.options.policy == q.options.policy
            &&& p.options.health == (q.options.health || a == "--health"@)
            &&& p.options.generate == (q.options.generate || a == "--generate-key"@)
            &&& p.options.pubkey == (q.options.pubkey || a == "--pubkey"@)
            &&& p.options.force == (q.options.force || a == "--force"@)
            &&& is_switch(a) ==> each(p.ignored@) == each(q.ignored@)
            &&& !is_switch(a) ==> each(p.ignored@) == seq![a] + each(q.ignored@)
        }),
{
    let all = each(args@);
    let few = each(rest@);
    let o = no_options();
    let a = all[0];
    assert(a == args@[0]@);
    assert(all.skip(1) =~= few);
    assert(p@ == parsed(all, o, seq![]));
    assert(q@ == parsed(few, o, seq![]));
    lemma_switches_differ();
    let none = Seq::<Seq<char>>::empty();
    assert(none + none =~= none);
    if is_switch(a) {
        let d = OptionsView {
            health: a == "--health"@,
            generate: a == "--generate-key"@,
            pubkey: a == "--pubkey"@,
            force: a == "--force"@,
            ..o
        };
        lemma_carried(few, o, d, none, none);
        assert(p@ == parsed(few, both(o, d), none));
        assert(none + q@.ignored =~= q@.ignored);
    } else {
        lemma_carried(few, o, o, seq![a], none);
        assert(seq![a] + none =~= none.push(a));
        assert(both(o, o) == o);
        assert(p@ == parsed(few, o, none.push(a)));
    }
}

} // verus!
