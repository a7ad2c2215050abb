//! Emulated network conditions, as arguments for `tc qdisc ... netem`.
use crate::matrix::{Cell, ValueText, cell_text, cell_value, cells_text, or_else, value_in};
use crate::text::{
    concat3, decimal, first_where, has_suffix, is_number_text, lemma_first_where,
    lemma_first_where_found, lemma_texts_push, lowered, number_text, numbers_begin_with_digits,
    parse_u64, render, same, slices, strip_suffix, texts, unsigned_of, unsigned_part,
};
use vstd::prelude::*;

verus! {

/// The link-condition flags, in the order `tc` wants them.
pub open spec fn link_flags_text() -> Seq<Seq<char>> {
    seq![
        "link-delay"@,
        "link-jitter"@,
        "link-loss"@,
        "link-rate"@,
        "link-reorder"@,
        "link-duplicate"@,
        "link-corrupt"@,
        "link-limit"@,
    ]
}

/// The link-condition flags, in the order `tc` wants them.
pub fn link_flags() -> (r: Vec<&'static str>)
    ensures
        slices(r@) == link_flags_text(),
{
    let all: Vec<&'static str> = vec![
        "link-delay",
        "link-jitter",
        "link-loss",
        "link-rate",
        "link-reorder",
        "link-duplicate",
        "link-corrupt",
        "link-limit",
    ];
    assert(slices(all@) =~= link_flags_text());
    all
}

/// Accepted unit suffixes of a knob. The empty one means a bare integer.
pub open spec fn units_of(flag: Seq<char>) -> Seq<Seq<char>> {
    if flag == "link-delay"@ || flag == "link-jitter"@ {
        seq!["ms"@, "us"@, "s"@]
    } else if flag == "link-loss"@ || flag == "link-reorder"@ || flag == "link-duplicate"@ || flag
        == "link-corrupt"@ {
        seq!["%"@]
    } else if flag == "link-rate"@ {
        seq!["bit"@, "kbit"@, "mbit"@, "gbit"@]
    } else {
        seq![""@]
    }
}

pub fn link_units(flag: &str) -> (r: Vec<&'static str>)
    ensures
        slices(r@) == units_of(flag@),
{
    let units: Vec<&'static str> = if same(flag, "link-delay") || same(flag, "link-jitter") {
        vec!["ms", "us", "s"]
    } else if same(flag, "link-loss") || same(flag, "link-reorder") || same(flag, "link-duplicate")
        || same(flag, "link-corrupt") {
        vec!["%"]
    } else if same(flag, "link-rate") {
        vec!["bit", "kbit", "mbit", "gbit"]
    } else {
        vec![""]
    };
    assert(slices(units@) =~= units_of(flag@));
    units
}

/// Whether `value` is a bare number with the given unit behind it. What stands for no
/// number, or for one without bounds, is none.
pub open spec fn in_unit(value: Seq<char>, unit: Seq<char>) -> bool {
    if unit.len() == 0 {
        unsigned_of(value, u64::MAX as int) is Some
    } else {
        has_suffix(value, unit) && is_number_text(value.subrange(0, value.len() - unit.len()))
    }
}

/// Whether a value may be handed on: a bare number with a known unit.
pub open spec fn link_value_fits(value: Seq<char>, units: Seq<Seq<char>>) -> bool {
    exists|i: int| 0 <= i < units.len() && in_unit(value, #[trigger] units[i])
}

/// A value is valid if some accepted unit suffix leaves a number behind. Testing
/// every unit rather than the first that strips matters: "100mbit" ends with "bit",
/// and stopping there would leave "100m".
pub fn link_value_ok(value: &str, units: &Vec<&str>) -> (r: bool)
    ensures
        r == link_value_fits(value@, slices(units@)),
{
    let ghost all = slices(units@);
    let mut i: usize = 0;
    while i < units.len()
        invariant
            i <= units@.len() == all.len(),
            all == slices(units@),
            forall|j: int| 0 <= j < i ==> !in_unit(value@, #[trigger] all[j]),
        decreases units@.len() - i,
    {
        assert(all[i as int] == units@[i as int]@);
        if units[i].is_empty() {
            if parse_u64(value).is_some() {
                assert(in_unit(value@, all[i as int]));
                return true;
            }
        } else if let Some(number) = strip_suffix(value, units[i]) {
            if number_text(number.as_str()) {
                assert(in_unit(value@, all[i as int]));
                return true;
            }
        }
        i += 1;
    }
    false
}

/// Nothing without bounds, and nothing that is no number, is ever handed on.
pub proof fn only_numbers_fit(value: Seq<char>, unit: Seq<char>)
    requires
        unit.len() > 0,
        in_unit(value, unit),
    ensures
        ({
            let number = unsigned_part(lowered(value.subrange(0, value.len() - unit.len())));
            number != "nan"@ && number != "inf"@ && number != "infinity"@ && number.len() > 0
        }),
{
    let t = unsigned_part(lowered(value.subrange(0, value.len() - unit.len())));
    reveal_strlit("nan");
    reveal_strlit("inf");
    reveal_strlit("infinity");
    numbers_begin_with_digits(t);
}

/// The setting of a knob in a cell, if it asks for any.
pub open spec fn setting(cell: Seq<ValueText>, flag: Seq<char>) -> Option<Seq<char>> {
    match value_in(cell, flag, None) {
        Some(v) => if v.len() == 0 || v == "off"@ {
            None
        } else {
            Some(v)
        },
        None => None,
    }
}

/// Whether the setting of a knob may not be handed on.
pub open spec fn bad_setting(cell: Seq<ValueText>) -> spec_fn(Seq<char>) -> bool {
    |flag: Seq<char>|
        setting(cell, flag) is Some && !link_value_fits(setting(cell, flag)->0, units_of(flag))
}

/// A knob and its value, as `tc` takes them; nothing where it is not set.
pub open spec fn knob_args(cell: Seq<ValueText>, flag: Seq<char>, knob: Seq<char>) -> Seq<Seq<char>> {
    match setting(cell, flag) {
        Some(v) => seq![knob, v],
        None => Seq::empty(),
    }
}

/// Whether a cell asks for any condition; a backlog alone is none.
pub open spec fn emulates(cell: Seq<ValueText>) -> bool {
    setting(cell, "link-delay"@) is Some || setting(cell, "link-jitter"@) is Some || setting(
        cell,
        "link-loss"@,
    ) is Some || setting(cell, "link-rate"@) is Some || setting(cell, "link-reorder"@) is Some
        || setting(cell, "link-duplicate"@) is Some || setting(cell, "link-corrupt"@) is Some
}

/// The arguments for the settings of a cell, without any test.
pub open spec fn tc_args(cell: Seq<ValueText>) -> Seq<Seq<char>> {
    seq!["limit"@, or_else(setting(cell, "link-limit"@), "100000"@)] + knob_args(
        cell,
        "link-delay"@,
        "delay"@,
    ) + match setting(cell, "link-jitter"@) {
        Some(v) => seq![v],
        None => Seq::empty(),
    } + knob_args(cell, "link-loss"@, "loss"@) + knob_args(cell, "link-rate"@, "rate"@) + knob_args(
        cell,
        "link-reorder"@,
        "reorder"@,
    ) + knob_args(cell, "link-duplicate"@, "duplicate"@) + knob_args(
        cell,
        "link-corrupt"@,
        "corrupt"@,
    )
}

/// What `netem_args` makes of a cell.
pub open spec fn netem_of(cell: Seq<ValueText>) -> Result<Option<Seq<Seq<char>>>, Seq<char>> {
    let flags = link_flags_text();
    let bad = first_where(flags, bad_setting(cell));
    if bad < flags.len() {
        Err("--"@ + flags[bad] + ": bad value '"@ + setting(cell, flags[bad])->0 + "'"@)
    } else if !emulates(cell) {
        Ok(None)
    } else if setting(cell, "link-delay"@) is None && setting(cell, "link-jitter"@) is Some {
        Err("--link-jitter needs --link-delay"@)
    } else {
        Ok(Some(tc_args(cell)))
    }
}

fn link_setting(cell: &Cell, flag: &str) -> (r: Option<String>)
    ensures
        match (r, setting(cell_text(cell@), flag@)) {
            (Some(a), Some(b)) => a@ == b,
            (None, None) => true,
            _ => false,
        },
{
    match cell_value(cell, flag, None) {
        Some(v) => if v.as_str().is_empty() || same(v.as_str(), "off") {
            None
        } else {
            Some(v.clone())
        },
        None => None,
    }
}

fn push_knob(args: &mut Vec<String>, cell: &Cell, flag: &str, knob: &str)
    ensures
        texts(final(args)@) == texts(old(args)@) + knob_args(cell_text(cell@), flag@, knob@),
{
    let ghost before = args@;
    if let Some(v) = link_setting(cell, flag) {
        args.push(knob.to_owned());
        args.push(v);
    }
    assert(texts(args@) =~= texts(before) + knob_args(cell_text(cell@), flag@, knob@));
}

/// Render the link settings of one cell as `tc qdisc ... netem` arguments.
///
/// Values are validated rather than forwarded: these reach a privileged command, so
/// anything that is not a bare number with a known unit is rejected. `None` when the
/// cell asks for no emulation at all.
///
/// `limit` is the emulator's own backlog in packets. Its default of 1000 would
/// quietly become the bottleneck at these packet rates, so it is raised unless set.
pub fn netem_args(cell: &Cell) -> (r: Result<Option<Vec<String>>, String>)
    ensures
        match (r, netem_of(cell_text(cell@))) {
            (Ok(Some(got)), Ok(Some(want))) => texts(got@) == want,
            (Ok(None), Ok(None)) => true,
            (Err(got), Err(want)) => got@ == want,
            _ => false,
        },
{
    let ghost text = cell_text(cell@);
    let flags = link_flags();
    let ghost names = link_flags_text();
    let mut i: usize = 0;
    assert(slices(flags@).len() == flags@.len());
    while i < flags.len()
        invariant
            i <= flags@.len(),
            text == cell_text(cell@),
            names == link_flags_text(),
            slices(flags@) == names,
            forall|j: int| 0 <= j < i ==> !bad_setting(text)(#[trigger] names[j]),
        decreases flags@.len() - i,
    {
        assert(slices(flags@)[i as int] == flags@[i as int]@);
        if let Some(value) = link_setting(cell, flags[i]) {
            if !link_value_ok(value.as_str(), &link_units(flags[i])) {
                proof {
                    lemma_first_where(names, bad_setting(text), i as int);
                }
                let mut message = concat3("--", flags[i], ": bad value '");
                message.append(value.as_str());
                message.append("'");
                return Err(message);
            }
        }
        i += 1;
    }
    proof {
        lemma_first_where(names, bad_setting(text), i as int);
    }
    let delay = link_setting(cell, "link-delay");
    let jitter = link_setting(cell, "link-jitter");
    let any = delay.is_some() || jitter.is_some() || link_setting(cell, "link-loss").is_some()
        || link_setting(cell, "link-rate").is_some() || link_setting(
        cell,
        "link-reorder",
    ).is_some() || link_setting(cell, "link-duplicate").is_some() || link_setting(
        cell,
        "link-corrupt",
    ).is_some();
    if !any {
        return Ok(None);
    }
    if delay.is_none() && jitter.is_some() {
        return Err("--link-jitter needs --link-delay".to_owned());
    }
    let mut args: Vec<String> = Vec::new();
    args.push("limit".to_owned());
    let limit = match link_setting(cell, "link-limit") {
        Some(v) => v,
        None => "100000".to_owned(),
    };
    args.push(limit);
    assert(texts(args@) =~= seq!["limit"@, or_else(setting(text, "link-limit"@), "100000"@)]);
    push_knob(&mut args, cell, "link-delay", "delay");
    let ghost so_far = texts(args@);
    // The emulator wants jitter as a bare second argument to delay.
    if let Some(v) = jitter {
        proof {
            lemma_texts_push(args@, v);
        }
        args.push(v);
    }
    assert(texts(args@) =~= so_far + match setting(text, "link-jitter"@) {
        Some(v) => seq![v],
        None => Seq::empty(),
    });
    push_knob(&mut args, cell, "link-loss", "loss");
    push_knob(&mut args, cell, "link-rate", "rate");
    push_knob(&mut args, cell, "link-reorder", "reorder");
    push_knob(&mut args, cell, "link-duplicate", "duplicate");
    push_knob(&mut args, cell, "link-corrupt", "corrupt");
    Ok(Some(args))
}

/// Everything that reaches the privileged command was tested: each value is a bare
/// number with a unit that its knob knows.
pub proof fn only_tested_values_are_handed_on(cell: Seq<ValueText>, flag: Seq<char>)
    requires
        netem_of(cell) is Ok,
        link_flags_text().contains(flag),
        setting(cell, flag) is Some,
    ensures
        link_value_fits(setting(cell, flag)->0, units_of(flag)),
{
    let flags = link_flags_text();
    lemma_first_where_found(flags, bad_setting(cell));
    let i = flags.index_of(flag);
    assert(!bad_setting(cell)(flags[i]));
}

/// The first bad link value of any of the first `n` cells.
pub open spec fn first_link_error(cells: Seq<Seq<ValueText>>, n: int) -> Option<Seq<char>>
    decreases n,
{
    if n <= 0 {
        None
    } else {
        match first_link_error(cells, n - 1) {
            Some(e) => Some(e),
            None => match netem_of(cells[n - 1]) {
                Err(e) => Some(e),
                Ok(_) => None,
            },
        }
    }
}

/// Whether any cell of a sweep asks for link emulation; all of them then run inside
/// the namespace. A value that is not accepted is the error.
pub fn any_link_emulated(cells: &Vec<Cell>) -> (r: Result<bool, String>)
    ensures
        match r {
            Ok(any) => {
                &&& first_link_error(cells_text(cells@), cells@.len() as int) is None
                &&& any == exists|i: int|
                    0 <= i < cells@.len() && (#[trigger] netem_of(
                        cells_text(cells@)[i],
                    ))->Ok_0 is Some
            },
            Err(e) => first_link_error(cells_text(cells@), cells@.len() as int) == Some(e@),
        },
{
    let ghost all = cells_text(cells@);
    let mut any = false;
    let mut i: usize = 0;
    while i < cells.len()
        invariant
            i <= cells@.len(),
            all == cells_text(cells@),
            first_link_error(all, i as int) is None,
            any == exists|j: int| 0 <= j < i && (#[trigger] netem_of(all[j]))->Ok_0 is Some,
        decreases cells@.len() - i,
    {
        assert(all[i as int] == cell_text(cells@[i as int]@));
        match netem_args(&cells[i]) {
            Ok(found) => {
                if found.is_some() {
                    any = true;
                    assert(netem_of(all[i as int])->Ok_0 is Some);
                }
            },
            Err(e) => {
                proof {
                    lemma_link_error_stays(all, i + 1, cells@.len() as int);
                }
                return Err(e);
            },
        }
        i += 1;
    }
    Ok(any)
}

proof fn lemma_link_error_stays(cells: Seq<Seq<ValueText>>, n: int, m: int)
    requires
        n <= m,
        first_link_error(cells, n) is Some,
    ensures
        first_link_error(cells, m) == first_link_error(cells, n),
    decreases m - n,
{
    if n < m {
        lemma_link_error_stays(cells, n, m - 1);
    }
}

// ---------------------------------------------------------------------------
// Commands
// ---------------------------------------------------------------------------

/// The private network namespace that emulated links live in.
pub const NETNS: &'static str = "srtbench";

/// What runs a program inside the namespace.
pub open spec fn inside_namespace() -> Seq<Seq<char>> {
    seq!["ip"@, "netns"@, "exec"@, NETNS@]
}

fn namespace_words() -> (r: Vec<String>)
    ensures
        texts(r@) == inside_namespace(),
{
    let words: Vec<String> = vec![
        "ip".to_owned(),
        "netns".to_owned(),
        "exec".to_owned(),
        NETNS.to_owned(),
    ];
    assert(texts(words@) =~= inside_namespace());
    words
}

fn push_words(words: &mut Vec<String>, more: &Vec<&str>)
    ensures
        texts(final(words)@) == texts(old(words)@) + slices(more@),
{
    let ghost before = texts(words@);
    let ghost all = slices(more@);
    let mut i: usize = 0;
    assert(before + all.take(0) =~= before);
    while i < more.len()
        invariant
            i <= more@.len(),
            all == slices(more@),
            texts(words@) == before + all.take(i as int),
        decreases more@.len() - i,
    {
        let word = more[i].to_owned();
        proof {
            lemma_texts_push(words@, word);
            assert(all[i as int] == word@);
            assert((before + all.take(i as int)).push(word@) =~= before + all.take(i + 1));
        }
        words.push(word);
        i += 1;
    }
    assert(all.take(all.len() as int) =~= all);
}

/// The command that applies emulated conditions to the namespace's loopback, or
/// clears them.
pub open spec fn netem_command_text(netem: Option<Seq<Seq<char>>>) -> Seq<Seq<char>> {
    match netem {
        Some(args) => inside_namespace() + seq![
            "tc"@,
            "qdisc"@,
            "replace"@,
            "dev"@,
            "lo"@,
            "root"@,
            "netem"@,
        ] + args,
        None => inside_namespace() + seq!["tc"@, "qdisc"@, "del"@, "dev"@, "lo"@, "root"@],
    }
}

/// The command that applies emulated conditions to the namespace's loopback, or
/// clears them.
pub fn netem_command(netem: &Option<Vec<String>>) -> (r: Vec<String>)
    ensures
        texts(r@) == netem_command_text(
            match *netem {
                Some(args) => Some(texts(args@)),
                None => None,
            },
        ),
{
    let mut words = namespace_words();
    match netem {
        Some(args) => {
            let verb: Vec<&str> = vec!["tc", "qdisc", "replace", "dev", "lo", "root", "netem"];
            assert(slices(verb@) =~= seq![
                "tc"@,
                "qdisc"@,
                "replace"@,
                "dev"@,
                "lo"@,
                "root"@,
                "netem"@,
            ]);
            push_words(&mut words, &verb);
            let ghost before = texts(words@);
            let mut i: usize = 0;
            assert(before + texts(args@).take(0) =~= before);
            while i < args.len()
                invariant
                    i <= args@.len(),
                    texts(words@) == before + texts(args@).take(i as int),
                decreases args@.len() - i,
            {
                let word = args[i].clone();
                proof {
                    lemma_texts_push(words@, word);
                    assert((before + texts(args@).take(i as int)).push(word@) =~= before + texts(
                        args@,
                    ).take(i + 1));
                }
                words.push(word);
                i += 1;
            }
            assert(texts(args@).take(args@.len() as int) =~= texts(args@));
        },
        None => {
            let verb: Vec<&str> = vec!["tc", "qdisc", "del", "dev", "lo", "root"];
            assert(slices(verb@) =~= seq!["tc"@, "qdisc"@, "del"@, "dev"@, "lo"@, "root"@]);
            push_words(&mut words, &verb);
        },
    }
    words
}

/// The command that runs a role inside the namespace as the calling user, so that
/// the result file stays theirs.
pub open spec fn role_command_text(uid: u32, gid: u32, exe: Seq<char>) -> Seq<Seq<char>> {
    let user = if uid == 0 {
        Seq::empty()
    } else {
        seq![
            "setpriv"@,
            "--reuid="@ + decimal(uid as nat),
            "--regid="@ + decimal(gid as nat),
            "--clear-groups"@,
        ]
    };
    inside_namespace() + user + seq!["env"@, "SRT_BENCH_CHILD=1"@, exe]
}

/// The command that runs a role inside the namespace as the calling user.
pub fn role_command(uid: u32, gid: u32, exe: &str) -> (r: Vec<String>)
    ensures
        texts(r@) == role_command_text(uid, gid, exe@),
{
    let mut words = namespace_words();
    let ghost base = texts(words@);
    if uid != 0 {
        let mut reuid = "--reuid=".to_owned();
        reuid.append(render(uid as u64).as_str());
        let mut regid = "--regid=".to_owned();
        regid.append(render(gid as u64).as_str());
        let user: Vec<&str> = vec!["setpriv", reuid.as_str(), regid.as_str(), "--clear-groups"];
        assert(slices(user@) =~= seq![
            "setpriv"@,
            "--reuid="@ + decimal(uid as nat),
            "--regid="@ + decimal(gid as nat),
            "--clear-groups"@,
        ]);
        push_words(&mut words, &user);
    } else {
        assert(base + Seq::<Seq<char>>::empty() =~= base);
    }
    let tail: Vec<&str> = vec!["env", "SRT_BENCH_CHILD=1", exe];
    assert(slices(tail@) =~= seq!["env"@, "SRT_BENCH_CHILD=1"@, exe@]);
    push_words(&mut words, &tail);
    words
}

/// The command that creates the namespace (`add`) or removes it (`del`).
pub fn namespace_command(add: bool) -> (r: Vec<String>)
    ensures
        texts(r@) == seq![
            "ip"@,
            "netns"@,
            if add {
                "add"@
            } else {
                "del"@
            },
            NETNS@,
        ],
{
    let words: Vec<String> = vec![
        "ip".to_owned(),
        "netns".to_owned(),
        if add {
            "add".to_owned()
        } else {
            "del".to_owned()
        },
        NETNS.to_owned(),
    ];
    assert(texts(words@) =~= seq![
        "ip"@,
        "netns"@,
        if add {
            "add"@
        } else {
            "del"@
        },
        NETNS@,
    ]);
    words
}

/// The command that brings the namespace's loopback up.
pub fn loopback_command() -> (r: Vec<String>)
    ensures
        texts(r@) == inside_namespace() + seq!["ip"@, "link"@, "set"@, "lo"@, "up"@],
{
    let mut words = namespace_words();
    let verb: Vec<&str> = vec!["ip", "link", "set", "lo", "up"];
    assert(slices(verb@) =~= seq!["ip"@, "link"@, "set"@, "lo"@, "up"@]);
    push_words(&mut words, &verb);
    words
}

/// A command as it is run: behind `sudo -n` unless this process is root.
pub fn elevated(root: bool, command: Vec<String>) -> (r: Vec<String>)
    ensures
        texts(r@) == if root {
            texts(command@)
        } else {
            seq!["sudo"@, "-n"@] + texts(command@)
        },
{
    if root {
        return command;
    }
    let mut words: Vec<String> = vec!["sudo".to_owned(), "-n".to_owned()];
    assert(texts(words@) =~= seq!["sudo"@, "-n"@]);
    let ghost before = texts(words@);
    let mut i: usize = 0;
    assert(before + texts(command@).take(0) =~= before);
    while i < command.len()
        invariant
            i <= command@.len(),
            texts(words@) == before + texts(command@).take(i as int),
        decreases command@.len() - i,
    {
        let word = command[i].clone();
        proof {
            lemma_texts_push(words@, word);
            assert((before + texts(command@).take(i as int)).push(word@) =~= before + texts(
                command@,
            ).take(i + 1));
        }
        words.push(word);
        i += 1;
    }
    assert(texts(command@).take(command@.len() as int) =~= texts(command@));
    words
}

} // verus!
