//! How the contents of a ring buffer are written out.
use vstd::prelude::*;
use vstd::string::StringExecFns;

verus! {

/// The digit for `d`, where `d` is less than ten.
pub open spec fn digit(d: nat) -> char {
    ('0' as nat + d) as char
}

/// The decimal numeral of `n`, without leading zeros.
pub open spec fn decimal(n: nat) -> Seq<char>
    decreases n,
{
    if n < 10 {
        seq![digit(n)]
    } else {
        decimal(n / 10).push(digit(n % 10))
    }
}

/// Each text followed by a comma and a space, one after the other.
pub open spec fn listed(texts: Seq<Seq<char>>) -> Seq<char>
    decreases texts.len(),
{
    if texts.len() == 0 {
        Seq::empty()
    } else {
        listed(texts.drop_last()) + texts.last() + seq![',', ' ']
    }
}

/// The texts, each followed by a comma and a space, in square brackets.
pub open spec fn bracketed(texts: Seq<Seq<char>>) -> Seq<char> {
    seq!['['] + listed(texts) + seq![']']
}

/// One line per shard: its number, and what it holds in square brackets.
pub open spec fn shard_lines(shards: Seq<Seq<Seq<char>>>) -> Seq<char>
    decreases shards.len(),
{
    if shards.len() == 0 {
        Seq::empty()
    } else {
        let i = (shards.len() - 1) as nat;
        shard_lines(shards.drop_last()) + (seq!['S', 'h', 'a', 'r', 'd', ' '] + decimal(i) + seq![
            ':',
            ' ',
        ] + bracketed(shards.last()) + seq!['\n'])
    }
}

/// Each of `texts` is what `show` may give for the entry at its place.
pub open spec fn shown_by<T, F: Fn(&Option<T>) -> String>(
    show: F,
    entries: Seq<Option<T>>,
    texts: Seq<String>,
) -> bool {
    &&& texts.len() == entries.len()
    &&& forall|i: int|
        0 <= i < entries.len() ==> call_ensures(show, (&#[trigger] entries[i],), texts[i])
}

/// `show` can be called on every entry.
pub open spec fn showable<T, F: Fn(&Option<T>) -> String>(
    show: F,
    entries: Seq<Option<T>>,
) -> bool {
    forall|i: int| 0 <= i < entries.len() ==> call_requires(show, (&#[trigger] entries[i],))
}

/// The characters of each text.
pub open spec fn chars_of(texts: Seq<String>) -> Seq<Seq<char>> {
    Seq::new(texts.len(), |i: int| texts[i]@)
}

/// The characters of each text of each shard.
pub open spec fn chars_of_all(texts: Seq<Seq<String>>) -> Seq<Seq<Seq<char>>> {
    Seq::new(texts.len(), |s: int| chars_of(texts[s]))
}

/// The numeral of a single digit.
fn digit_text(d: usize) -> (text: &'static str)
    requires
        d < 10,
    ensures
        text@ == seq![digit(d as nat)],
{
    proof {
        reveal_strlit("0");
        reveal_strlit("1");
        reveal_strlit("2");
        reveal_strlit("3");
        reveal_strlit("4");
        reveal_strlit("5");
        reveal_strlit("6");
        reveal_strlit("7");
        reveal_strlit("8");
        reveal_strlit("9");
    }
    let text: &'static str = match d {
        0 => "0",
        1 => "1",
        2 => "2",
        3 => "3",
        4 => "4",
        5 => "5",
        6 => "6",
        7 => "7",
        8 => "8",
        _ => "9",
    };
    assert(text@ =~= seq![digit(d as nat)]);
    text
}

/// Writes `n` as a decimal numeral.
pub fn decimal_text(n: usize) -> (text: String)
    ensures
        text@ == decimal(n as nat),
    decreases n,
{
    if n < 10 {
        String::from_str(digit_text(n))
    } else {
        let mut text = decimal_text(n / 10);
        text.append(digit_text(n % 10));
        assert(text@ =~= decimal(n as nat));
        text
    }
}

/// Writes the entries in square brackets, each as `show` gives it.
pub fn bracketed_text<T, F: Fn(&Option<T>) -> String>(entries: &Vec<Option<T>>, show: &F) -> (text:
    String)
    requires
        showable(*show, entries@),
    ensures
        exists|texts: Seq<String>|
            #![trigger chars_of(texts)]
            shown_by(*show, entries@, texts) && text@ == bracketed(chars_of(texts)),
{
    proof {
        reveal_strlit("[");
        reveal_strlit(", ");
        reveal_strlit("]");
    }
    let mut text = String::from_str("[");
    let ghost mut texts: Seq<String> = Seq::empty();
    let mut i: usize = 0;
    assert(text@ =~= seq!['['] + listed(chars_of(texts)));
    while i < entries.len()
        invariant
            i <= entries@.len(),
            showable(*show, entries@),
            shown_by(*show, entries@.take(i as int), texts),
            text@ == seq!['['] + listed(chars_of(texts)),
            ", "@ =~= seq![',', ' '],
        decreases entries.len() - i,
    {
        let shown = show(&entries[i]);
        text.append(shown.as_str());
        text.append(", ");
        proof {
            let grown = texts.push(shown);
            assert(chars_of(grown).drop_last() =~= chars_of(texts));
            assert(entries@.take(i + 1).drop_last() =~= entries@.take(i as int));
            assert forall|k: int| 0 <= k < i + 1 implies call_ensures(
                *show,
                (&#[trigger] entries@.take(i + 1)[k],),
                grown[k],
            ) by {
                if k < i {
                    assert(entries@.take(i as int)[k] == entries@.take(i + 1)[k]);
                }
            }
            assert(text@ =~= seq!['['] + listed(chars_of(grown)));
            texts = grown;
        }
        i += 1;
    }
    text.append("]");
    proof {
        assert(entries@.take(i as int) =~= entries@);
        assert(text@ =~= bracketed(chars_of(texts)));
    }
    text
}

/// A number below ten is written as its digit; any other number as that without
/// its last digit, followed by that digit.
pub proof fn law_numeral_is_written_digit_by_digit(n: nat, d: nat)
    requires
        d < 10,
    ensures
        decimal(d) == seq![('0' as nat + d) as char],
        n > 0 ==> decimal(10 * n + d) == decimal(n).push(('0' as nat + d) as char),
{
    if n > 0 {
        assert((10 * n + d) / 10 == n);
        assert((10 * n + d) % 10 == d);
    }
}

/// A list of texts is made of its parts, in their order: that of one text is the
/// text, a comma and a space, and that of two parts is one after the other.
pub proof fn law_list_is_made_of_its_parts(
    text: Seq<char>,
    first: Seq<Seq<char>>,
    second: Seq<Seq<char>>,
)
    ensures
        listed(seq![text]) == text + seq![',', ' '],
        listed(first + second) == listed(first) + listed(second),
        bracketed(first) == seq!['['] + listed(first) + seq![']'],
    decreases second.len(),
{
    let one = seq![text];
    assert(one.drop_last() =~= Seq::<Seq<char>>::empty());
    assert(listed(one.drop_last()) =~= Seq::<char>::empty());
    assert(listed(one) =~= text + seq![',', ' ']);
    if second.len() == 0 {
        assert(first + second =~= first);
        assert(listed(first + second) =~= listed(first) + listed(second));
    } else {
        law_list_is_made_of_its_parts(text, first, second.drop_last());
        assert((first + second).drop_last() =~= first + second.drop_last());
        assert((first + second).last() == second.last());
        assert(listed(first + second) =~= listed(first) + listed(second));
    }
}

/// One more shard adds one more line: its number, counted from zero, and what it
/// holds. Without a shard there is no line.
pub proof fn law_each_shard_has_its_line(shards: Seq<Seq<Seq<char>>>, shard: Seq<Seq<char>>)
    ensures
        shard_lines(Seq::empty()).len() == 0,
        shard_lines(shards.push(shard)) == shard_lines(shards) + "Shard "@ + decimal(
            shards.len(),
        ) + ": "@ + seq!['['] + listed(shard) + seq![']'] + "\n"@,
{
    reveal_strlit("Shard ");
    reveal_strlit(": ");
    reveal_strlit("\n");
    assert(shards.push(shard).drop_last() =~= shards);
    assert("Shard "@ =~= seq!['S', 'h', 'a', 'r', 'd', ' ']);
    assert(": "@ =~= seq![':', ' ']);
    assert("\n"@ =~= seq!['\n']);
    assert(shard_lines(shards.push(shard)) =~= shard_lines(shards) + "Shard "@ + decimal(
        shards.len(),
    ) + ": "@ + seq!['['] + listed(shard) + seq![']'] + "\n"@);
}

/// The texts of entries are one for each entry, at its place, and all characters of
/// each text are written out.
pub proof fn law_every_entry_is_shown_at_its_place<T, F: Fn(&Option<T>) -> String>(
    show: F,
    entries: Seq<Option<T>>,
    texts: Seq<String>,
    all: Seq<Seq<String>>,
)
    ensures
        showable(show, entries) <==> forall|i: int|
            0 <= i < entries.len() ==> call_requires(show, (&#[trigger] entries[i],)),
        shown_by(show, entries, texts) <==> {
            &&& texts.len() == entries.len()
            &&& forall|i: int|
                0 <= i < entries.len() ==> call_ensures(show, (&#[trigger] entries[i],), texts[i])
        },
        chars_of(texts).len() == texts.len(),
        forall|i: int| 0 <= i < texts.len() ==> #[trigger] chars_of(texts)[i] == texts[i]@,
        chars_of_all(all).len() == all.len(),
        forall|s: int| 0 <= s < all.len() ==> (#[trigger] chars_of_all(all)[s]).len() == all[s].len(),
        forall|s: int, i: int|
            0 <= s < all.len() && 0 <= i < all[s].len() ==> #[trigger] chars_of_all(all)[s][i]
                == all[s][i]@,
{
}

} // verus!
