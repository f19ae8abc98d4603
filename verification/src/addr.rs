use vstd::prelude::*;

verus! {

/// The address that the host's derivation scheme assigns to a list of
/// seed byte-strings under a program id, or `None` when the search for a
/// usable address fails.  Two calls with the same inputs always agree.
pub uninterp spec fn derived_of(seeds: Seq<Seq<u8>>, program: Seq<u8>) -> Option<Seq<u8>>;

/// The namespace tag under which poll records are addressed: the bytes of "poll".
pub open spec fn poll_tag() -> Seq<u8> {
    seq![112u8, 111u8, 108u8, 108u8]
}

/// The namespace tag under which vote records are addressed: the bytes of "vote".
pub open spec fn vote_tag() -> Seq<u8> {
    seq![118u8, 111u8, 116u8, 101u8]
}

/// The seed list from which a poll's address is derived: the poll tag and
/// the creator's identity key.
pub open spec fn poll_seeds(creator: Seq<u8>) -> Seq<Seq<u8>> {
    seq![poll_tag(), creator]
}

/// The seed list from which a vote record's address is derived: the vote
/// tag, the poll's address and the voter's identity key.
pub open spec fn vote_seeds(poll: Seq<u8>, voter: Seq<u8>) -> Seq<Seq<u8>> {
    seq![vote_tag(), poll, voter]
}

/// The poll tag as bytes.
pub fn poll_tag_bytes() -> (r: Vec<u8>)
    ensures
        r@ == poll_tag(),
{
    let mut v: Vec<u8> = Vec::new();
    v.push(112);
    v.push(111);
    v.push(108);
    v.push(108);
    proof {
        assert(v@ =~= poll_tag());
    }
    v
}

/// The vote tag as bytes.
pub fn vote_tag_bytes() -> (r: Vec<u8>)
    ensures
        r@ == vote_tag(),
{
    let mut v: Vec<u8> = Vec::new();
    v.push(118);
    v.push(111);
    v.push(116);
    v.push(101);
    proof {
        assert(v@ =~= vote_tag());
    }
    v
}

/// Relies on Pubkey::try_find_program_address: the returned address (and
/// whether one exists at all) is a pure function of the seeds and the
/// program id, computed by hashing; an address is 32 bytes.
#[verifier::external_body]
fn try_find_derived(seeds: &Vec<Vec<u8>>, program: &Vec<u8>) -> (r: Option<Vec<u8>>)
    requires
        program@.len() == 32,
    ensures
        match r {
            Some(a) => derived_of(seeds.deep_view(), program@) == Some(a@) && a@.len() == 32,
            None => derived_of(seeds.deep_view(), program@) is None,
        },
{
    let mut refs: Vec<&[u8]> = Vec::new();
    for s in seeds.iter() {
        refs.push(s.as_slice());
    }
    let mut id_bytes = [0u8; 32];
    id_bytes.copy_from_slice(program.as_slice());
    let id = anchor_lang::prelude::Pubkey::new_from_array(id_bytes);
    match anchor_lang::prelude::Pubkey::try_find_program_address(&refs, &id) {
        Some((address, _bump)) => Some(address.to_bytes().to_vec()),
        None => None,
    }
}

/// Derive the storage address for a namespace tag and a list of components
/// under the given program id.  The result is deterministic in the inputs;
/// `None` is reported when the address space yields no usable address.
pub fn derive_address(tag: Vec<u8>, components: Vec<Vec<u8>>, program_id: &Vec<u8>) -> (r: Option<
    Vec<u8>,
>)
    requires
        program_id@.len() == 32,
    ensures
        match r {
            Some(a) => derived_of(
                seq![tag@] + components.deep_view(),
                program_id@,
            ) == Some(a@) && a@.len() == 32,
            None => derived_of(seq![tag@] + components.deep_view(), program_id@) is None,
        },
{
    let ghost tag_view = tag@;
    let ghost comps = components@;
    let ghost components_view = components.deep_view();
    let mut seeds = components;
    seeds.insert(0, tag);
    proof {
        comps.insert_ensures(0, tag);
        assert forall|i: int| 0 <= i < seeds.deep_view().len() implies seeds.deep_view()[i] == (
        seq![tag_view] + components_view)[i] by {
            if i > 0 {
                assert(seeds@[i] == comps[i - 1]);
            }
        }
        assert(seeds.deep_view() =~= seq![tag_view] + components_view);
    }
    try_find_derived(&seeds, program_id)
}

} // verus!
