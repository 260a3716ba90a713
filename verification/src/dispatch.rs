//! The table that picks the command for a command word.
use vstd::prelude::*;
use vstd::string::StringExecFns;
use crate::handlers::Handler;

verus! {

/// One entry of the table: the word that selects `handler`.
pub struct Dispatcher {
    pub keyword: String,
    pub handler: Handler,
}

/// The dispatch table, searched in order.
pub struct Main {
    pub dispatchers: Vec<Dispatcher>,
}

impl Main {
    /// The table as (word, command) pairs.
    pub open spec fn table(&self) -> Seq<(Seq<char>, Handler)> {
        self.dispatchers@.map_values(|d: Dispatcher| (d.keyword@, d.handler))
    }

    /// Appends an entry.
    pub fn add(&mut self, keyword: &str, handler: Handler)
        ensures
            final(self).table() == old(self).table().push((keyword@, handler)),
    {
        let dispatcher = Dispatcher { keyword: String::from_str(keyword), handler };
        self.dispatchers.push(dispatcher);
        assert(self.table() =~= old(self).table().push((keyword@, handler)));
    }

    /// The command of the first entry whose word is `command`.
    pub fn find_handler(&self, command: &str) -> (r: Option<Handler>)
        ensures
            r == first_match(self.table(), command@),
    {
        let c = String::from_str(command);
        let mut i: usize = 0;
        assert(self.table().skip(0) =~= self.table());
        while i < self.dispatchers.len()
            invariant
                i <= self.dispatchers.len(),
                c@ == command@,
                first_match(self.table(), command@) == first_match(
                    self.table().skip(i as int),
                    command@,
                ),
            decreases self.dispatchers.len() - i,
        {
            let ghost rest = self.table().skip(i as int);
            assert(rest[0] == self.table()[i as int]);
            assert(rest.drop_first() =~= self.table().skip(i + 1));
            if self.dispatchers[i].keyword == c {
                return Some(self.dispatchers[i].handler);
            }
            i = i + 1;
        }
        assert(self.table().skip(i as int) =~= Seq::<(Seq<char>, Handler)>::empty());
        None
    }
}

/// The command of the first pair in `table` whose word is `command`.
pub open spec fn first_match(table: Seq<(Seq<char>, Handler)>, command: Seq<char>) -> Option<
    Handler,
>
    decreases table.len(),
{
    if table.len() == 0 {
        None
    } else if table[0].0 == command {
        Some(table[0].1)
    } else {
        first_match(table.drop_first(), command)
    }
}

/// The word that selects each command.
pub open spec fn keyword(h: Handler) -> Seq<char> {
    match h {
        Handler::G => seq!['g'],
        Handler::T => seq!['t'],
        Handler::Tr => seq!['t', 'r'],
        Handler::L => seq!['l'],
        Handler::Lr => seq!['l', 'r'],
        Handler::BigT => seq!['T'],
        Handler::Z => seq!['z'],
    }
}

/// The table of the language, in the order it is searched.
pub open spec fn dispatch_table() -> Seq<(Seq<char>, Handler)> {
    seq![
        (keyword(Handler::G), Handler::G),
        (keyword(Handler::T), Handler::T),
        (keyword(Handler::Tr), Handler::Tr),
        (keyword(Handler::L), Handler::L),
        (keyword(Handler::Lr), Handler::Lr),
        (keyword(Handler::BigT), Handler::BigT),
        (keyword(Handler::Z), Handler::Z),
    ]
}

/// Builds the table of the language.
pub fn get_main() -> (main: Main)
    ensures
        main.table() == dispatch_table(),
{
    let mut main = Main { dispatchers: Vec::new() };
    assert(main.table() =~= Seq::<(Seq<char>, Handler)>::empty());
    proof {
        reveal_strlit("g");
        reveal_strlit("t");
        reveal_strlit("tr");
        reveal_strlit("l");
        reveal_strlit("lr");
        reveal_strlit("T");
        reveal_strlit("z");
    }
    main.add("g", Handler::G);
    main.add("t", Handler::T);
    main.add("tr", Handler::Tr);
    main.add("l", Handler::L);
    main.add("lr", Handler::Lr);
    main.add("T", Handler::BigT);
    main.add("z", Handler::Z);
    assert("g"@ =~= seq!['g']);
    assert("t"@ =~= seq!['t']);
    assert("tr"@ =~= seq!['t', 'r']);
    assert("l"@ =~= seq!['l']);
    assert("lr"@ =~= seq!['l', 'r']);
    assert("T"@ =~= seq!['T']);
    assert("z"@ =~= seq!['z']);
    assert(main.table() =~= dispatch_table());
    main
}

/// Each command word selects its own command, and no other word selects
/// any: the table's search gives `h` exactly for the word `keyword(h)`.
pub proof fn lemma_dispatch_selects_keyword(command: Seq<char>)
    ensures
        first_match(dispatch_table(), command) matches Some(h) ==> command == keyword(h),
        forall|h: Handler| command == keyword(h) ==> first_match(dispatch_table(), command) == Some(h),
{
    let t = dispatch_table();
    reveal_with_fuel(first_match, 8);
    assert(t.drop_first() =~= seq![t[1], t[2], t[3], t[4], t[5], t[6]]);
    assert(t.drop_first().drop_first() =~= seq![t[2], t[3], t[4], t[5], t[6]]);
    assert(t.drop_first().drop_first().drop_first() =~= seq![t[3], t[4], t[5], t[6]]);
    assert(t.drop_first().drop_first().drop_first().drop_first() =~= seq![t[4], t[5], t[6]]);
    assert(t.drop_first().drop_first().drop_first().drop_first().drop_first() =~= seq![t[5], t[6]]);
    assert(t.drop_first().drop_first().drop_first().drop_first().drop_first().drop_first() =~= seq![t[6]]);
    assert(seq![t[6]].drop_first() =~= Seq::<(Seq<char>, Handler)>::empty());
    assert forall|h: Handler| command == keyword(h) implies first_match(t, command) == Some(h) by {
        assert(seq!['t'] != seq!['g']) by { assert(seq!['t'][0] != seq!['g'][0]); }
        assert(seq!['t', 'r'] != seq!['t']) by { assert(seq!['t', 'r'].len() != seq!['t'].len()); }
        assert(seq!['l', 'r'] != seq!['l']) by { assert(seq!['l', 'r'].len() != seq!['l'].len()); }
        assert(seq!['t', 'r'] != seq!['g']) by { assert(seq!['t', 'r'].len() != seq!['g'].len()); }
        assert(seq!['l'] != seq!['g'] && seq!['l'] != seq!['t']) by {
            assert(seq!['l'][0] != seq!['g'][0]);
            assert(seq!['l'][0] != seq!['t'][0]);
        }
        assert(seq!['l', 'r'] != seq!['g'] && seq!['l', 'r'] != seq!['t']) by {
            assert(seq!['l', 'r'].len() != seq!['g'].len());
        }
        assert(seq!['l', 'r'] != seq!['t', 'r']) by { assert(seq!['l', 'r'][0] != seq!['t', 'r'][0]); }
        assert(seq!['l'] != seq!['t', 'r']) by { assert(seq!['l'].len() != seq!['t', 'r'].len()); }
        assert(seq!['T'] != seq!['g'] && seq!['T'] != seq!['t'] && seq!['T'] != seq!['l']) by {
            assert(seq!['T'][0] != seq!['g'][0]);
            assert(seq!['T'][0] != seq!['t'][0]);
            assert(seq!['T'][0] != seq!['l'][0]);
        }
        assert(seq!['T'] != seq!['t', 'r'] && seq!['T'] != seq!['l', 'r']) by {
            assert(seq!['T'].len() != seq!['t', 'r'].len());
        }
        assert(seq!['z'] != seq!['g'] && seq!['z'] != seq!['t'] && seq!['z'] != seq!['l'] && seq!['z'] != seq!['T']) by {
            assert(seq!['z'][0] != seq!['g'][0]);
            assert(seq!['z'][0] != seq!['t'][0]);
            assert(seq!['z'][0] != seq!['l'][0]);
            assert(seq!['z'][0] != seq!['T'][0]);
        }
        assert(seq!['z'] != seq!['t', 'r'] && seq!['z'] != seq!['l', 'r']) by {
            assert(seq!['z'].len() != seq!['t', 'r'].len());
        }
    }
}

} // verus!
