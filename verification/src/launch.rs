//! The command-line argument a freshly installed copy of the client gets:
//! `--delete-old="<path>"` names the binary it was installed from.

use vstd::prelude::*;

verus! {

/// `--delete-old=` followed by a double quote.
pub open spec fn quoted_flag() -> Seq<char> {
    seq!['-', '-', 'd', 'e', 'l', 'e', 't', 'e', '-', 'o', 'l', 'd', '=', '"']
}

/// `--delete-old=`.
pub open spec fn bare_flag() -> Seq<char> {
    quoted_flag().take(13)
}

/// The path named by the first argument that carries it: after
/// `--delete-old="` up to a closing quote at the end of the argument (an
/// argument with the opening quote and no closing one is passed over), or
/// everything after `--delete-old=` without quotes.
pub open spec fn delete_old_in(args: Seq<Seq<char>>) -> Option<Seq<char>>
    decreases args.len(),
{
    if args.len() == 0 {
        None
    } else {
        let a = args[0];
        if a.len() >= 14 && a.take(14) == quoted_flag() {
            if a.len() >= 15 && a.last() == '"' {
                Some(a.subrange(14, a.len() - 1))
            } else {
                delete_old_in(args.drop_first())
            }
        } else if a.len() >= 13 && a.take(13) == bare_flag() {
            Some(a.skip(13))
        } else {
            delete_old_in(args.drop_first())
        }
    }
}

/// Whether `s` starts with the first `n` characters of the quoted flag.
fn has_flag_prefix(s: &str, n: usize) -> (r: bool)
    requires
        n <= 14,
    ensures
        r == (s@.len() >= n && s@.take(n as int) == quoted_flag().take(n as int)),
{
    let flag: [char; 14] = ['-', '-', 'd', 'e', 'l', 'e', 't', 'e', '-', 'o', 'l', 'd', '=', '"'];
    proof {
        assert(flag@ =~= quoted_flag());
    }
    let len = s.unicode_len();
    if len < n {
        return false;
    }
    let mut i: usize = 0;
    while i < n
        invariant
            n <= 14,
            i <= n,
            len == s@.len(),
            n <= len,
            flag@ == quoted_flag(),
            forall|k: int| 0 <= k < i ==> s@[k] == quoted_flag()[k],
        decreases n - i,
    {
        if s.get_char(i) != flag[i] {
            proof {
                assert(s@.take(n as int)[i as int] != quoted_flag().take(n as int)[i as int]);
            }
            return false;
        }
        i += 1;
    }
    proof {
        assert(s@.take(n as int) =~= quoted_flag().take(n as int));
    }
    true
}

/// The path to delete, from the program's arguments.
pub fn delete_old_target(args: &Vec<String>) -> (r: Option<String>)
    ensures
        match r {
            Some(p) => delete_old_in(args@.map_values(|a: String| a@)) == Some(p@),
            None => delete_old_in(args@.map_values(|a: String| a@)) is None,
        },
{
    let ghost all = args@.map_values(|a: String| a@);
    let n = args.len();
    let mut i: usize = 0;
    proof {
        assert(all.skip(0) =~= all);
    }
    while i < n
        invariant
            n == args@.len(),
            0 <= i <= n,
            all == args@.map_values(|a: String| a@),
            delete_old_in(all) == delete_old_in(all.skip(i as int)),
        decreases n - i,
    {
        let a = args[i].as_str();
        let ghost rest = all.skip(i as int);
        proof {
            assert(rest[0] == a@);
            assert(rest.drop_first() =~= all.skip(i + 1));
            assert(bare_flag() =~= quoted_flag().take(13));
            assert(quoted_flag().take(14) =~= quoted_flag());
        }
        if has_flag_prefix(a, 14) {
            let len = a.unicode_len();
            if len >= 15 && a.get_char(len - 1) == '"' {
                let path = a.substring_char(14, len - 1);
                let out = String::from_str(path);
                proof {
                    assert(rest.len() > 0);
                    assert(a@.last() == '"');
                    assert(delete_old_in(rest) == Some(out@));
                }
                return Some(out);
            }
            proof {
                assert(rest.len() > 0);
                assert(delete_old_in(rest) == delete_old_in(rest.drop_first()));
            }
        } else if has_flag_prefix(a, 13) {
            let len = a.unicode_len();
            let path = a.substring_char(13, len);
            let out = String::from_str(path);
            proof {
                assert(a@.subrange(13, len as int) =~= a@.skip(13));
                assert(rest.len() > 0);
                assert(delete_old_in(rest) == Some(out@));
            }
            return Some(out);
        } else {
            proof {
                assert(rest.len() > 0);
                assert(delete_old_in(rest) == delete_old_in(rest.drop_first()));
            }
        }
        i += 1;
    }
    proof {
        assert(all.skip(n as int) =~= Seq::<Seq<char>>::empty());
    }
    None
}

} // verus!
