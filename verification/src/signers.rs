//! The signers to watch and the labels by which their operators are known.

use crate::address::{
    address_in, hex_char, law_shown_address_is_unique, parse_address, shown_address, Address,
    AddressError,
};
use crate::table::{Table, TableKey};
use crate::text::{split_at_first, split_once, trim, trimmed};
use vstd::prelude::*;
use vstd::string::*;

verus! {

/// The label that an entry of the signer list carries: what stands before its first `=`, unless
/// that is blank.
pub open spec fn entry_label(entry: Seq<char>) -> Option<Seq<char>> {
    match split_at_first(entry, '=') {
        Some((label, _)) => if trimmed(label).len() > 0 {
            Some(trimmed(label))
        } else {
            None
        },
        None => None,
    }
}

/// The part of an entry that should be an address: what stands after its first `=`, or all of it.
pub open spec fn entry_address(entry: Seq<char>) -> Seq<char> {
    match split_at_first(entry, '=') {
        Some((_, address)) => trimmed(address),
        None => trimmed(entry),
    }
}

/// The labels of `signers` after the first `n` entries: a later label of the same address takes
/// the place of an earlier one.
pub open spec fn labels_after(
    entries: Seq<Seq<char>>,
    signers: Seq<Address>,
    n: nat,
) -> Map<Address, Seq<char>>
    decreases n,
{
    if n == 0 {
        Map::empty()
    } else {
        let earlier = labels_after(entries, signers, (n - 1) as nat);
        match entry_label(entries[n - 1]) {
            Some(label) => earlier.insert(signers[n - 1], label),
            None => earlier,
        }
    }
}

/// The texts of `entries`.
pub open spec fn texts(entries: Seq<String>) -> Seq<Seq<char>> {
    entries.map_values(|entry: String| entry@)
}

/// Labels by address.
pub type Labels = Table<Address, String>;

/// The texts of the labels, by address.
pub open spec fn label_texts(labels: Labels) -> Map<Address, Seq<char>> {
    labels@.map_values(|label: String| label@)
}

/// The signers to watch, in the order in which they were given, and their labels.
pub struct Roster {
    pub signers: Vec<Address>,
    pub labels: Labels,
}

/// What is wrong with a list of signers.
pub enum SignersError {
    /// It is empty.
    NoSigners,
    /// The first entry without a valid address.
    BadAddress { text: String, cause: AddressError },
}

impl SignersError {
    /// What to tell the operator.
    pub open spec fn text(self) -> Seq<char> {
        match self {
            SignersError::NoSigners => "no signers configured; set --signers / SIGNERS"@,
            SignersError::BadAddress { text, .. } => "bad signer address "@ + text@,
        }
    }

    /// What to tell the operator.
    pub fn message(&self) -> (res: String)
        ensures
            res@ == self.text(),
    {
        match self {
            SignersError::NoSigners => "no signers configured; set --signers / SIGNERS".to_owned(),
            SignersError::BadAddress { text, .. } => "bad signer address ".to_owned().concat(
                text.as_str(),
            ),
        }
    }
}

/// Reads a list of signers, each given as `ADDRESS` or as `label=ADDRESS`.
pub fn parse_signers(entries: &Vec<String>) -> (res: Result<Roster, SignersError>)
    ensures
        match res {
            Ok(roster) => {
                &&& entries@.len() > 0
                &&& roster.signers@.len() == entries@.len()
                &&& forall|i: int|
                    0 <= i < entries@.len() ==> #[trigger] address_in(entry_address(entries@[i]@))
                        == Ok::<Seq<u8>, AddressError>(roster.signers@[i].bytes@)
                &&& roster.labels.wf()
                &&& label_texts(roster.labels) == labels_after(
                    texts(entries@),
                    roster.signers@,
                    entries@.len(),
                )
            },
            Err(SignersError::NoSigners) => entries@.len() == 0,
            Err(SignersError::BadAddress { text, cause }) => exists|i: int|
                {
                    &&& 0 <= i < entries@.len()
                    &&& text@ == entry_address(entries@[i]@)
                    &&& #[trigger] address_in(entry_address(entries@[i]@)) == Err::<
                        Seq<u8>,
                        AddressError,
                    >(cause)
                    &&& forall|j: int|
                        0 <= j < i ==> #[trigger] address_in(entry_address(entries@[j]@)) is Ok
                },
        },
{
    if entries.len() == 0 {
        return Err(SignersError::NoSigners);
    }
    let mut signers: Vec<Address> = Vec::new();
    let mut labels: Labels = Table::new();
    let mut i: usize = 0;
    assert(label_texts(labels) =~= Map::<Address, Seq<char>>::empty());
    while i < entries.len()
        invariant
            i <= entries@.len(),
            signers@.len() == i,
            forall|j: int|
                0 <= j < i ==> #[trigger] address_in(entry_address(entries@[j]@)) == Ok::<
                    Seq<u8>,
                    AddressError,
                >(signers@[j].bytes@),
            labels.wf(),
            label_texts(labels) == labels_after(texts(entries@), signers@, i as nat),
        decreases entries@.len() - i,
    {
        let ghost before = signers@;
        let entry = entries[i].as_str();
        let (label, addr_str) = match split_once(entry, '=') {
            Some((label, addr)) => (Some(trim(label)), trim(addr)),
            None => (None, trim(entry)),
        };
        let addr = match parse_address(addr_str) {
            Ok(addr) => addr,
            Err(cause) => {
                assert(address_in(entry_address(entries@[i as int]@)) == Err::<
                    Seq<u8>,
                    AddressError,
                >(cause));
                return Err(SignersError::BadAddress { text: addr_str.to_owned(), cause });
            },
        };
        signers.push(addr);
        proof {
            lemma_labels_prefix(texts(entries@), before, signers@, i as nat);
            assert(texts(entries@)[i as int] == entry@);
            assert(signers@[i as int] == addr);
        }
        let ghost earlier = label_texts(labels);
        if let Some(label) = label {
            if !label.is_empty() {
                labels.insert(addr, label.to_owned());
                assert(label_texts(labels) =~= earlier.insert(addr, label@));
            }
        }
        i = i + 1;
    }
    Ok(Roster { signers, labels })
}

/// The labels after `n` entries depend on the first `n` signers alone.
proof fn lemma_labels_prefix(entries: Seq<Seq<char>>, a: Seq<Address>, b: Seq<Address>, n: nat)
    requires
        n <= a.len(),
        n <= b.len(),
        forall|j: int| 0 <= j < n ==> a[j] == b[j],
    ensures
        labels_after(entries, a, n) == labels_after(entries, b, n),
    decreases n,
{
    if n > 0 {
        lemma_labels_prefix(entries, a, b, (n - 1) as nat);
    }
}

/// How `signer` is called in messages: `label (ADDRESS)` if it has a label, else its address.
pub open spec fn name_of(signer: Address, labels: Map<Address, Seq<char>>) -> Seq<char> {
    if labels.dom().contains(signer) {
        labels[signer] + " ("@ + signer.shown() + ")"@
    } else {
        signer.shown()
    }
}

/// How `addr` is called in messages.
pub fn signer_name(addr: &Address, labels: &Labels) -> (res: String)
    requires
        labels.wf(),
    ensures
        res@ == name_of(*addr, label_texts(*labels)),
{
    match labels.get(addr) {
        Some(label) => label.clone().concat(" (").concat(shown_address(addr).as_str()).concat(")"),
        None => shown_address(addr),
    }
}

/// An entry `label=ADDRESS` carries that label, unless it is blank, and that address.
pub proof fn law_labelled_entry(label: Seq<char>, address: Seq<char>)
    requires
        !label.contains('='),
    ensures
        entry_label(label + seq!['='] + address) == (if trimmed(label).len() > 0 {
            Some(trimmed(label))
        } else {
            None
        }),
        entry_address(label + seq!['='] + address) == trimmed(address),
{
    let entry = label + seq!['='] + address;
    let n = label.len() as int;
    assert(entry[n] == '=');
    entry.index_of_first_ensures('=');
    let i = entry.index_of_first('=').unwrap();
    if i < n {
        assert(label[i] == '=');
    }
    assert(i == n);
    assert(entry.take(n) =~= label);
    assert(entry.skip(n + 1) =~= address);
}

/// An entry without `=` carries no label and is all address.
pub proof fn law_bare_entry(entry: Seq<char>)
    requires
        !entry.contains('='),
    ensures
        entry_label(entry) is None,
        entry_address(entry) == trimmed(entry),
{
    entry.index_of_first_ensures('=');
}

/// A signer has the label of the last labelled entry that gives its address, and no label if there
/// is no such entry.
pub proof fn law_last_label_counts(
    entries: Seq<Seq<char>>,
    signers: Seq<Address>,
    n: nat,
    signer: Address,
)
    requires
        n <= entries.len(),
        n <= signers.len(),
    ensures
        labels_after(entries, signers, n).dom().contains(signer) <==> exists|i: int|
            0 <= i < n && #[trigger] signers[i] == signer && entry_label(entries[i]) is Some,
        forall|i: int|
            #![trigger signers[i]]
            0 <= i < n && signers[i] == signer && entry_label(entries[i]) is Some && (forall|j: int|
                i < j < n && #[trigger] signers[j] == signer ==> entry_label(entries[j]) is None)
                ==> labels_after(entries, signers, n)[signer] == entry_label(entries[i])->0,
    decreases n,
{
    if n > 0 {
        let m = (n - 1) as nat;
        law_last_label_counts(entries, signers, m, signer);
        let earlier = labels_after(entries, signers, m);
        let last = signers[n - 1];
        if labels_after(entries, signers, n).dom().contains(signer) {
            if earlier.dom().contains(signer) {
                let i = choose|i: int|
                    0 <= i < m && #[trigger] signers[i] == signer && entry_label(
                        entries[i],
                    ) is Some;
                assert(signers[i] == signer);
            } else {
                assert(last == signer);
            }
        }
        assert forall|i: int|
            #![trigger signers[i]]
            0 <= i < n && signers[i] == signer && entry_label(entries[i]) is Some && (forall|j: int|
                i < j < n && #[trigger] signers[j] == signer ==> entry_label(
                    entries[j],
                ) is None) implies labels_after(entries, signers, n)[signer] == entry_label(
            entries[i],
        )->0 by {
            if i < m {
                assert(last == signer ==> entry_label(entries[n - 1]) is None);
                assert(forall|j: int|
                    i < j < m && #[trigger] signers[j] == signer ==> entry_label(
                        entries[j],
                    ) is None);
                assert(earlier[signer] == entry_label(entries[i])->0);
            }
        }
    }
}

/// A signer is called by its label, if it has one, with its address in brackets behind it, and by
/// its address alone if it has none.
pub proof fn law_name_shows_label_and_address(signer: Address, labels: Map<Address, Seq<char>>)
    ensures
        labels.dom().contains(signer) ==> name_of(signer, labels) == labels[signer] + " ("@
            + signer.shown() + ")"@,
        !labels.dom().contains(signer) ==> name_of(signer, labels) == signer.shown(),
{
}

/// The entries and the labels are taken as they are written.
pub proof fn law_texts_as_they_are(entries: Seq<String>, i: int, labels: Labels, signer: Address)
    requires
        0 <= i < entries.len(),
    ensures
        texts(entries).len() == entries.len(),
        texts(entries)[i] == entries[i]@,
        label_texts(labels).dom().contains(signer) <==> labels@.dom().contains(signer),
        labels@.dom().contains(signer) ==> label_texts(labels)[signer] == labels@[signer]@,
{
}

/// What is wrong with a list of signers is told in these words, with the part that should have been
/// an address.
pub proof fn law_signers_error_tells_what_is_wrong(text: String, cause: AddressError)
    ensures
        SignersError::NoSigners.text() == "no signers configured; set --signers / SIGNERS"@,
        (SignersError::BadAddress { text, cause }).text() == "bad signer address "@ + text@,
{
}

/// Signers with different addresses are called differently, whatever their labels are.
pub proof fn law_names_are_unique(a: Address, b: Address, labels: Map<Address, Seq<char>>)
    ensures
        name_of(a, labels) == name_of(b, labels) <==> a == b,
{
    law_shown_address_is_unique(a, b);
    lemma_name_ends(a, labels);
    lemma_name_ends(b, labels);
}

/// A name with a label ends with the address in brackets, one without ends with a digit.
proof fn lemma_name_ends(signer: Address, labels: Map<Address, Seq<char>>)
    ensures
        ({
            let name = name_of(signer, labels);
            let n = name.len() as int;
            if labels.dom().contains(signer) {
                n > 43 && name.last() == ')' && name.subrange(n - 43, n - 1) == signer.shown()
            } else {
                n > 0 && name.last() != ')' && name == signer.shown()
            }
        }),
{
    reveal_strlit(" (");
    reveal_strlit(")");
    let name = name_of(signer, labels);
    let n = name.len() as int;
    let shown = signer.shown();
    assert(shown.len() == 42);
    if labels.dom().contains(signer) {
        assert(name.subrange(n - 43, n - 1) =~= shown);
    } else {
        assert(0 <= signer.bytes@[19] as int % 16 < 16);
        assert(shown.last() == hex_char(signer.bytes@[19] as int % 16));
    }
}

} // verus!
