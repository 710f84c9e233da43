//! The guest's startup arguments, derived from the parameters of a model load.
use vstd::prelude::*;
use vstd::string::StringExecFns;
use crate::message::LoadModel;

verus! {

/// The character of a decimal digit.
pub open spec fn digit_char(d: nat) -> char {
    if d == 0 { '0' }
    else if d == 1 { '1' }
    else if d == 2 { '2' }
    else if d == 3 { '3' }
    else if d == 4 { '4' }
    else if d == 5 { '5' }
    else if d == 6 { '6' }
    else if d == 7 { '7' }
    else if d == 8 { '8' }
    else { '9' }
}

/// A number written in decimal, without leading zeros.
pub open spec fn decimal(n: nat) -> Seq<char>
    decreases n,
{
    if n < 10 {
        seq![digit_char(n)]
    } else {
        decimal(n / 10) + seq![digit_char(n % 10)]
    }
}

fn digit_str(d: u64) -> (s: &'static str)
    requires
        d < 10,
    ensures
        s@ == seq![digit_char(d as nat)],
{
    proof {
        reveal_strlit("0");
        reveal_strlit("1");
        reveal_strlit("2");
        reveal_strlit("3");
        reveal_strlit("4");
        reveal_strlit("5");
        reveal_strlit("6");
        reveal_strlit("7");
        reveal_strlit("8");
        reveal_strlit("9");
    }
    match d {
        0 => "0",
        1 => "1",
        2 => "2",
        3 => "3",
        4 => "4",
        5 => "5",
        6 => "6",
        7 => "7",
        8 => "8",
        _ => "9",
    }
}

/// Writes a number in decimal.
pub fn decimal_string(n: u64) -> (s: String)
    ensures
        s@ == decimal(n as nat),
    decreases n,
{
    if n < 10 {
        String::from_str(digit_str(n))
    } else {
        let mut s = decimal_string(n / 10);
        s.append(digit_str(n % 10));
        s
    }
}

/// A numeric option as its text.
pub open spec fn number_text(v: Option<u64>) -> Option<Seq<char>> {
    match v {
        Some(n) => Some(decimal(n as nat)),
        None => None,
    }
}

/// A textual option as its text.
pub open spec fn text_of(v: Option<String>) -> Option<Seq<char>> {
    match v {
        Some(s) => Some(s@),
        None => None,
    }
}

/// A flag followed by its value, or nothing where the option is absent.
pub open spec fn flag(name: Seq<char>, v: Option<Seq<char>>) -> Seq<Seq<char>> {
    match v {
        Some(x) => seq![name, x],
        None => Seq::empty(),
    }
}

/// The guest's argument list for a model load: the program name, the model
/// alias, then one flag with its value for each option that is present, in
/// a fixed order.
pub open spec fn wasi_args_spec(m: LoadModel) -> Seq<Seq<char>> {
    seq!["chat_ui.wasm"@, "-a"@, m.model@]
        + flag("-c"@, number_text(m.options.ctx_size))
        + flag("-n"@, number_text(m.options.n_predict))
        + flag("-g"@, number_text(m.options.n_gpu_layers))
        + flag("-b"@, number_text(m.options.batch_size))
        + flag("--temp"@, text_of(m.options.temp))
        + flag("--repeat-penalty"@, text_of(m.options.repeat_penalty))
        + flag("-r"@, text_of(m.options.reverse_prompt))
        + flag("-p"@, text_of(m.prompt_template))
}

/// The texts of a list of strings.
pub open spec fn texts(v: Seq<String>) -> Seq<Seq<char>> {
    v.map_values(|s: String| s@)
}

fn push_flag(args: &mut Vec<String>, name: &str, v: Option<String>)
    ensures
        texts(final(args)@) == texts(old(args)@) + flag(name@, text_of(v)),
{
    match v {
        Some(x) => {
            args.push(String::from_str(name));
            args.push(x);
            assert(texts(final(args)@) =~= texts(old(args)@) + flag(name@, text_of(v)));
        },
        None => {
            assert(texts(final(args)@) =~= texts(old(args)@) + flag(name@, text_of(v)));
        },
    }
}

fn number_option(v: Option<u64>) -> (r: Option<String>)
    ensures
        text_of(r) == number_text(v),
{
    match v {
        Some(n) => Some(decimal_string(n)),
        None => None,
    }
}

/// Builds the guest's argument list for a model load.
pub fn create_wasi_args(m: &LoadModel) -> (r: Vec<String>)
    ensures
        texts(r@) == wasi_args_spec(*m),
{
    let mut args: Vec<String> = Vec::new();
    args.push(String::from_str("chat_ui.wasm"));
    args.push(String::from_str("-a"));
    args.push(m.model.clone());
    assert(texts(args@) =~= seq!["chat_ui.wasm"@, "-a"@, m.model@]);
    push_flag(&mut args, "-c", number_option(m.options.ctx_size));
    push_flag(&mut args, "-n", number_option(m.options.n_predict));
    push_flag(&mut args, "-g", number_option(m.options.n_gpu_layers));
    push_flag(&mut args, "-b", number_option(m.options.batch_size));
    push_flag(&mut args, "--temp", m.options.temp.clone());
    push_flag(&mut args, "--repeat-penalty", m.options.repeat_penalty.clone());
    push_flag(&mut args, "-r", m.options.reverse_prompt.clone());
    push_flag(&mut args, "-p", m.prompt_template.clone());
    args
}

} // verus!
