//! The room-creation request and its validation.

use vstd::prelude::*;
use vstd::std_specs::iter::IteratorSpec;

verus! {

/// Shortest accepted identifier or display name, in characters.
pub const FIELD_MIN: usize = 3;

/// Longest accepted identifier or display name, in characters.
pub const FIELD_MAX: usize = 30;

/// A room-creation request: the opaque identifier and the display name of the
/// room to create.
pub struct CreateRoomDto {
    pub id: String,
    pub name: String,
}

/// Model of a [`CreateRoomDto`].
pub ghost struct DtoModel {
    pub id: Seq<char>,
    pub name: Seq<char>,
}

impl View for CreateRoomDto {
    type V = DtoModel;

    open spec fn view(&self) -> DtoModel {
        DtoModel { id: self.id@, name: self.name@ }
    }
}

/// A field is accepted when it holds between `FIELD_MIN` and `FIELD_MAX`
/// characters.
pub open spec fn valid_field(s: Seq<char>) -> bool {
    FIELD_MIN <= s.len() <= FIELD_MAX
}

/// A request is accepted when both fields are.
pub open spec fn valid_create_room(dto: DtoModel) -> bool {
    valid_field(dto.id) && valid_field(dto.name)
}

/// The character count of `s`, counted only up to `cap`: the result is the
/// count when it does not exceed `cap`, and `cap + 1` otherwise.
fn char_count_capped(s: &String, cap: usize) -> (n: usize)
    requires
        cap < usize::MAX,
    ensures
        s@.len() <= cap ==> n == s@.len(),
        s@.len() > cap ==> n == cap + 1,
{
    broadcast use vstd::string::axiom_spec_iter;
    broadcast use vstd::string::next_postcondition;

    let mut it = s.as_str().chars();
    let mut n: usize = 0;
    loop
        invariant
            cap < usize::MAX,
            n <= cap,
            n + it.remaining().len() == s@.len(),
            it.obeys_prophetic_iter_laws(),
            it.decrease() is Some,
        decreases it.decrease()->0,
    {
        match it.next() {
            Some(_) => {
                n = n + 1;
                if n > cap {
                    return n;
                }
            },
            None => {
                return n;
            },
        }
    }
}

impl CreateRoomDto {
    /// Whether both fields are within the accepted length bounds.
    pub fn validate(&self) -> (ok: bool)
        ensures
            ok == valid_create_room(self@),
    {
        let id_len = char_count_capped(&self.id, FIELD_MAX);
        let name_len = char_count_capped(&self.name, FIELD_MAX);
        FIELD_MIN <= id_len && id_len <= FIELD_MAX && FIELD_MIN <= name_len && name_len
            <= FIELD_MAX
    }
}

} // verus!
