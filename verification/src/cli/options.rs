//! The command line: flags, their arguments, and plain values.
use vstd::prelude::*;
use crate::table::Table;
use crate::text::{skip_chars, starts_with_char, str_eq};

verus! {

/// Struct containing information regarding the command line arguments passed
/// to the application
#[derive(Debug)]
pub struct Options {
    pub short_flags: Vec<String>,
    pub long_flags: Vec<String>,
    pub raw_vals: Vec<String>,
    pub map: Table<String, Vec<String>>,
}

/// The state of reading the command line: the flags and values so far, the
/// flag that waits for its argument (empty when none does) and the arguments
/// it has so far.
pub struct OptionsState {
    pub short_flags: Seq<Seq<char>>,
    pub long_flags: Seq<Seq<char>>,
    pub raw_vals: Seq<Seq<char>>,
    pub map: Map<Seq<char>, Seq<Seq<char>>>,
    pub arguments: Seq<Seq<char>>,
    pub key: Seq<char>,
}

/// The flags that take arguments: `-o`, `--out`, `-g`, `-O`,
/// `--llvm-target` and `--llvm-layout`.
pub open spec fn accepts_arguments(opt: Seq<char>) -> bool {
    opt == "-o"@ || opt == "--out"@ || opt == "-g"@ || opt == "-O"@ || opt == "--llvm-target"@
        || opt == "--llvm-layout"@
}

/// Whether `s` begins with `c`.
pub open spec fn begins_with(s: Seq<char>, c: char) -> bool {
    s.len() > 0 && s[0] == c
}

/// Reading one word of the command line. A word starting with `-` is a flag:
/// a flag before it that is still waiting for its argument gets none, and it
/// waits for one itself when it takes one; `--name` is a long flag and
/// `-name` a short one. Any other word is the argument of the waiting flag,
/// or else a plain value.
pub open spec fn read_word(st: OptionsState, opt: Seq<char>) -> OptionsState {
    let st1 = if begins_with(opt, '-') {
        OptionsState {
            map: if st.key.len() > 0 {
                st.map.insert(st.key, st.arguments)
            } else {
                st.map
            },
            arguments: if st.key.len() > 0 {
                Seq::empty()
            } else {
                st.arguments
            },
            key: if accepts_arguments(opt) {
                opt
            } else {
                Seq::empty()
            },
            ..st
        }
    } else {
        st
    };
    if begins_with(opt, '-') && begins_with(opt.drop_first(), '-') {
        OptionsState { long_flags: st1.long_flags.push(opt.skip(2)), ..st1 }
    } else if begins_with(opt, '-') {
        OptionsState { short_flags: st1.short_flags.push(opt.skip(1)), ..st1 }
    } else if st1.key.len() == 0 {
        OptionsState { raw_vals: st1.raw_vals.push(opt), ..st1 }
    } else {
        OptionsState {
            map: st1.map.insert(st1.key, st1.arguments.push(opt)),
            arguments: Seq::empty(),
            key: Seq::empty(),
            ..st1
        }
    }
}

/// The state after reading the first `n` words.
pub open spec fn read_words(words: Seq<Seq<char>>, n: nat) -> OptionsState
    decreases n,
{
    if n == 0 {
        OptionsState {
            short_flags: Seq::empty(),
            long_flags: Seq::empty(),
            raw_vals: Seq::empty(),
            map: Map::empty(),
            arguments: Seq::empty(),
            key: Seq::empty(),
        }
    } else {
        read_word(read_words(words, (n - 1) as nat), words[n - 1])
    }
}

/// The options a command line gives: its words after the program name are
/// read in turn, and the arguments of the last collecting flag are kept.
pub open spec fn options_of(opts: Seq<Seq<char>>) -> OptionsState {
    let words = opts.drop_first();
    let st = read_words(words, words.len());
    if st.key.len() > 0 {
        OptionsState { map: st.map.insert(st.key, st.arguments), ..st }
    } else {
        st
    }
}

impl Options {
    /// The short flags, without their `-`, in order.
    pub open spec fn short_flags_v(&self) -> Seq<Seq<char>> {
        self.short_flags.deep_view()
    }

    /// The long flags, without their `--`, in order.
    pub open spec fn long_flags_v(&self) -> Seq<Seq<char>> {
        self.long_flags.deep_view()
    }

    /// The plain values, in order.
    pub open spec fn raw_vals_v(&self) -> Seq<Seq<char>> {
        self.raw_vals.deep_view()
    }

    /// Generate a new options object from a vector of strings passed to the application
    pub fn new(opts: Vec<String>) -> (o: Self)
        requires
            opts@.len() >= 1,
        ensures
            o.short_flags_v() == options_of(opts.deep_view()).short_flags,
            o.long_flags_v() == options_of(opts.deep_view()).long_flags,
            o.raw_vals_v() == options_of(opts.deep_view()).raw_vals,
            o.map.map() == options_of(opts.deep_view()).map,
    {
        let ghost all = opts.deep_view();
        let ghost words = all.drop_first();
        let mut short_flags: Vec<String> = Vec::new();
        let mut long_flags: Vec<String> = Vec::new();
        let mut raw_vals: Vec<String> = Vec::new();
        let mut map: Table<String, Vec<String>> = Table::new();
        let mut current_arguments: Vec<String> = Vec::new();
        let mut current_key: String = String::new();
        let mut i: usize = 1;
        proof {
            assert(short_flags.deep_view() =~= Seq::<Seq<char>>::empty());
            assert(long_flags.deep_view() =~= Seq::<Seq<char>>::empty());
            assert(raw_vals.deep_view() =~= Seq::<Seq<char>>::empty());
            assert(current_arguments.deep_view() =~= Seq::<Seq<char>>::empty());
        }
        while i < opts.len()
            invariant
                1 <= i <= opts@.len(),
                all == opts.deep_view(),
                words == all.drop_first(),
                read_words(words, (i - 1) as nat) == (OptionsState {
                    short_flags: short_flags.deep_view(),
                    long_flags: long_flags.deep_view(),
                    raw_vals: raw_vals.deep_view(),
                    map: map.map(),
                    arguments: current_arguments.deep_view(),
                    key: current_key@,
                }),
            decreases opts@.len() - i,
        {
            let opt = &opts[i];
            assert(words[i - 1] == opt@);
            let is_flag = starts_with_char(opt.as_str(), '-');
            if is_flag {
                if current_key.unicode_len() > 0 {
                    let mut key = String::new();
                    std::mem::swap(&mut key, &mut current_key);
                    let mut arguments: Vec<String> = Vec::new();
                    std::mem::swap(&mut arguments, &mut current_arguments);
                    map.insert(key, arguments);
                    assert(current_arguments.deep_view() =~= Seq::<Seq<char>>::empty());
                }
                if str_eq(opt.as_str(), "-o") || str_eq(opt.as_str(), "--out") || str_eq(opt.as_str(), "-g")
                    || str_eq(opt.as_str(), "-O") || str_eq(opt.as_str(), "--llvm-target") || str_eq(
                    opt.as_str(),
                    "--llvm-layout",
                ) {
                    current_key = opt.clone();
                } else {
                    current_key = String::new();
                }
            }
            let long = is_flag && opt.unicode_len() > 1 && opt.as_str().get_char(1) == '-';
            proof {
                if opt@.len() > 1 {
                    assert(opt@.drop_first()[0] == opt@[1]);
                }
            }
            if long {
                let ghost before = long_flags.deep_view();
                long_flags.push(skip_chars(opt.as_str(), 2));
                assert(long_flags.deep_view() =~= before.push(opt@.skip(2)));
            } else if is_flag {
                let ghost before = short_flags.deep_view();
                short_flags.push(skip_chars(opt.as_str(), 1));
                assert(short_flags.deep_view() =~= before.push(opt@.skip(1)));
            } else if current_key.unicode_len() == 0 {
                let ghost before = raw_vals.deep_view();
                raw_vals.push(opt.clone());
                assert(raw_vals.deep_view() =~= before.push(opt@));
            } else {
                let mut key = String::new();
                std::mem::swap(&mut key, &mut current_key);
                let mut arguments: Vec<String> = Vec::new();
                std::mem::swap(&mut arguments, &mut current_arguments);
                let ghost before = arguments.deep_view();
                arguments.push(opt.clone());
                assert(arguments.deep_view() =~= before.push(opt@));
                map.insert(key, arguments);
                assert(current_arguments.deep_view() =~= Seq::<Seq<char>>::empty());
            }
            i = i + 1;
        }
        if current_key.unicode_len() > 0 {
            map.insert(current_key, current_arguments);
        }
        Options { short_flags, long_flags, raw_vals, map }
    }

    /// Checks if a given long flag has been passed to the application
    pub fn has_long_flag(&self, flag: &str) -> (r: bool)
        ensures
            r == self.long_flags_v().contains(flag@),
    {
        strings_contain_str(&self.long_flags, flag)
    }

    /// Checks if a given short flag has been passed to the application
    pub fn has_short_flag(&self, flag: &str) -> (r: bool)
        ensures
            r == self.short_flags_v().contains(flag@),
    {
        strings_contain_str(&self.short_flags, flag)
    }

    /// Get a vector of the raw values passed to the application
    pub fn get_raw_values(&self) -> (r: Vec<String>)
        ensures
            r.deep_view() == self.raw_vals_v(),
    {
        crate::irgen::function::clone_strings(&self.raw_vals)
    }
}

/// Whether one of the strings holds the characters of `s`.
fn strings_contain_str(v: &Vec<String>, s: &str) -> (r: bool)
    ensures
        r == v.deep_view().contains(s@),
{
    let mut i: usize = 0;
    while i < v.len()
        invariant
            i <= v@.len(),
            forall|j: int| 0 <= j < i ==> v.deep_view()[j] != s@,
        decreases v@.len() - i,
    {
        if str_eq(v[i].as_str(), s) {
            assert(v.deep_view()[i as int] == s@);
            return true;
        }
        i = i + 1;
    }
    proof {
        if v.deep_view().contains(s@) {
            let j = choose|j: int| 0 <= j < v.deep_view().len() && v.deep_view()[j] == s@;
            assert(false);
        }
    }
    false
}

/// The long flags read from the first `n` words are those of the words of
/// the form `--name`, wherever they stand.
proof fn lemma_long_flags_read(words: Seq<Seq<char>>, n: nat, name: Seq<char>)
    requires
        n <= words.len(),
    ensures
        read_words(words, n).long_flags.contains(name) <==> words.take(n as int).contains(
            "--"@ + name,
        ),
    decreases n,
{
    reveal_strlit("--");
    let target = "--"@ + name;
    if n == 0 {
        assert(words.take(0) =~= Seq::<Seq<char>>::empty());
    } else {
        lemma_long_flags_read(words, (n - 1) as nat, name);
        let w = words[n - 1];
        let st = read_words(words, (n - 1) as nat);
        let lf = read_words(words, n).long_flags;
        let long = begins_with(w, '-') && begins_with(w.drop_first(), '-');
        assert(lf == if long {
            st.long_flags.push(w.skip(2))
        } else {
            st.long_flags
        });
        assert(words.take(n as int) =~= words.take(n - 1).push(w));
        vstd::seq_lib::lemma_seq_contains_after_push(words.take(n - 1), w, target);
        vstd::seq_lib::lemma_seq_contains_after_push(st.long_flags, w.skip(2), name);
        assert(words.take(n as int).contains(target) == (words.take(n - 1).contains(target) || w
            == target));
        if long {
            assert(w.drop_first()[0] == w[1]);
            if w.skip(2) == name {
                assert(w =~= target);
            }
            if w == target {
                assert(w.skip(2) =~= name);
            }
            assert(lf.contains(name) == (st.long_flags.contains(name) || w.skip(2) == name));
        } else {
            if w == target {
                assert(w[0] == '-');
                assert(w.drop_first()[0] == '-');
            }
        }
    }
}

/// A long flag is given exactly when a word `--name` stands anywhere after
/// the program name (even where a flag is collecting arguments).
pub proof fn law_long_flag_anywhere(opts: Seq<Seq<char>>, name: Seq<char>)
    requires
        opts.len() >= 1,
    ensures
        options_of(opts).long_flags.contains(name) <==> opts.drop_first().contains("--"@ + name),
{
    let words = opts.drop_first();
    lemma_long_flags_read(words, words.len(), name);
    assert(words.take(words.len() as int) =~= words);
}

} // verus!
