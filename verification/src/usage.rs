//! Messages naming the commands a caller may choose from.

use vstd::prelude::*;
use crate::error::{Error, ErrorKind};

verus! {

/// The command names joined with commas.
pub open spec fn joined_commas(cmds: Seq<Seq<char>>) -> Seq<char>
    decreases cmds.len(),
{
    if cmds.len() == 0 {
        Seq::empty()
    } else if cmds.len() == 1 {
        cmds[0]
    } else {
        joined_commas(cmds.drop_last()) + seq![',', ' '] + cmds.last()
    }
}

/// The sentence naming the known commands.
pub open spec fn known_cmds_str(cmds: Seq<Seq<char>>) -> Seq<char> {
    if cmds.len() == 1 {
        seq!['K', 'n', 'o', 'w', 'n', ' ', 'c', 'o', 'm', 'm', 'a', 'n', 'd', ' ', 'i', 's', ' ']
            + joined_commas(cmds)
    } else {
        seq![
            'K', 'n', 'o', 'w', 'n', ' ', 'c', 'o', 'm', 'm', 'a', 'n', 'd', 's', ' ', 'a', 'r',
            'e', ' ',
        ] + joined_commas(cmds)
    }
}

/// Joins the command names with commas.
fn join_commas(cmds: &Vec<String>) -> (r: String)
    ensures
        r@ == joined_commas(cmds.deep_view()),
{
    proof {
        reveal_strlit(", ");
    }
    let mut acc = String::new();
    let mut i: usize = 0;
    proof {
        assert(cmds.deep_view().take(0) =~= Seq::<Seq<char>>::empty());
    }
    while i < cmds.len()
        invariant
            0 <= i <= cmds.len(),
            cmds.deep_view().len() == cmds.len(),
            acc@ == joined_commas(cmds.deep_view().take(i as int)),
            ", "@ == seq![',', ' '],
        decreases cmds.len() - i,
    {
        proof {
            assert(cmds.deep_view().take(i + 1).drop_last() =~= cmds.deep_view().take(i as int));
            assert(cmds.deep_view().take(i + 1).last() == cmds.deep_view()[i as int]);
            if i == 0 {
                assert(cmds.deep_view().take(1)[0] == cmds.deep_view()[0]);
            }
        }
        if i == 0 {
            acc = String::from_str(cmds[i].as_str());
        } else {
            acc = acc.concat(", ").concat(cmds[i].as_str());
        }
        i = i + 1;
    }
    proof {
        assert(cmds.deep_view().take(cmds.len() as int) =~= cmds.deep_view());
    }
    acc
}

/// The sentence naming the known commands.
pub fn known_cmds_are(cmds: &Vec<String>) -> (r: String)
    ensures
        r@ == known_cmds_str(cmds.deep_view()),
{
    proof {
        reveal_strlit("Known command is ");
        reveal_strlit("Known commands are ");
    }
    let joined = join_commas(cmds);
    let r = if cmds.len() == 1 {
        String::from_str("Known command is ").concat(joined.as_str())
    } else {
        String::from_str("Known commands are ").concat(joined.as_str())
    };
    proof {
        assert(r@ =~= known_cmds_str(cmds.deep_view()));
    }
    r
}

/// The error for a command name that is not known.
pub fn unknown_cmd_error(cmd: &str, cmds: &Vec<String>) -> (e: Error)
    ensures
        e.kind_spec() == ErrorKind::Udix,
        e.message_spec() == seq![
            'U', 'n', 'k', 'n', 'o', 'w', 'n', ' ', 'c', 'o', 'm', 'm', 'a', 'n', 'd', ' ',
        ] + cmd@ + seq!['.', ' '] + known_cmds_str(cmds.deep_view()),
{
    proof {
        reveal_strlit("Unknown command ");
        reveal_strlit(". ");
    }
    let message = String::from_str("Unknown command ").concat(cmd).concat(". ").concat(
        known_cmds_are(cmds).as_str(),
    );
    proof {
        assert(message@ =~= seq![
            'U', 'n', 'k', 'n', 'o', 'w', 'n', ' ', 'c', 'o', 'm', 'm', 'a', 'n', 'd', ' ',
        ] + cmd@ + seq!['.', ' '] + known_cmds_str(cmds.deep_view()));
    }
    Error::new(ErrorKind::Udix, message, None)
}

/// The error for a missing command.
pub fn missing_cmd_error(cmds: &Vec<String>) -> (e: Error)
    ensures
        e.kind_spec() == ErrorKind::Udix,
        e.message_spec() == seq![
            'M', 'i', 's', 's', 'i', 'n', 'g', ' ', 'c', 'o', 'm', 'm', 'a', 'n', 'd', '.', ' ',
        ] + known_cmds_str(cmds.deep_view()),
{
    proof {
        reveal_strlit("Missing command. ");
    }
    let message = String::from_str("Missing command. ").concat(known_cmds_are(cmds).as_str());
    proof {
        assert(message@ =~= seq![
            'M', 'i', 's', 's', 'i', 'n', 'g', ' ', 'c', 'o', 'm', 'm', 'a', 'n', 'd', '.', ' ',
        ] + known_cmds_str(cmds.deep_view()));
    }
    Error::new(ErrorKind::Udix, message, None)
}

} // verus!
