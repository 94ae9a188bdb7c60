//! The button that stands for one variant of an enumerated parameter.

use crate::editor::ParamEdit;
use crate::selector::{
    host_normalized, host_normalized_spec, host_ordinal, host_ordinal_spec, is_selected,
    normalized_of, normalized_spec, ordinal_spec,
};
use vstd::prelude::*;

verus! {

/// One of `num_ids` buttons; it stands for the variant `option_id`.
pub struct EnumButton {
    option_id: usize,
    num_ids: usize,
}

impl EnumButton {
    #[verifier::type_invariant]
    spec fn option_in_range(self) -> bool {
        self.option_id < self.num_ids
    }

    /// The ordinal of the variant.
    pub closed spec fn option_id_spec(self) -> int {
        self.option_id as int
    }

    /// The number of variants.
    pub closed spec fn num_ids_spec(self) -> int {
        self.num_ids as int
    }

    /// The button for the variant `option_id` of `num_ids`, if there is
    /// such a variant.
    pub fn new(option_id: usize, num_ids: usize) -> (button: Option<EnumButton>)
        ensures
            button is Some <==> option_id < num_ids,
            button matches Some(b) ==> b.option_id_spec() == option_id && b.num_ids_spec()
                == num_ids,
    {
        if option_id < num_ids {
            Some(EnumButton { option_id, num_ids })
        } else {
            None
        }
    }

    /// Whether the button shows as checked at the position `value` of the
    /// parameter: the position selects the variant of this button. At every
    /// position exactly one button of a parameter is checked.
    pub fn is_checked(&self, value: i64) -> (checked: bool)
        ensures
            checked == (ordinal_spec(value as int, self.num_ids_spec()) == self.option_id_spec()),
    {
        proof {
            use_type_invariant(self);
        }
        is_selected(value, self.option_id, self.num_ids)
    }

    /// Whether the button shows as checked at the normalized value `value`
    /// of a host, which places the variants evenly with the last one at
    /// 1.0: the host reads the variant of this button from the value.
    pub fn is_checked_by_host(&self, value: i64) -> (checked: bool)
        ensures
            checked == (host_ordinal_spec(value as int, self.num_ids_spec() - 1)
                == self.option_id_spec()),
    {
        proof {
            use_type_invariant(self);
        }
        host_ordinal(value, self.num_ids - 1) == self.option_id
    }

    /// The edit that a click asks for: the position of the variant, set
    /// within a transaction of its own.
    pub fn set_value(&self) -> (edit: ParamEdit)
        ensures
            edit == (ParamEdit {
                begin: true,
                value: Some(normalized_spec(self.option_id_spec(), self.num_ids_spec()) as i64),
                end: true,
            }),
            edit.well_bracketed(false),
            !edit.leaves_open(false),
            edit.normalized(),
    {
        proof {
            use_type_invariant(self);
        }
        ParamEdit { begin: true, value: Some(normalized_of(self.option_id, self.num_ids)), end: true }
    }

    /// The edit that a click asks of a host, which places the variants
    /// evenly with the last one at 1.0: the value at which the host reads
    /// the variant of this button, set within a transaction of its own.
    pub fn set_value_for_host(&self) -> (edit: ParamEdit)
        ensures
            edit == (ParamEdit {
                begin: true,
                value: Some(
                    host_normalized_spec(self.option_id_spec(), self.num_ids_spec() - 1) as i64,
                ),
                end: true,
            }),
            edit.well_bracketed(false),
            !edit.leaves_open(false),
            edit.normalized(),
    {
        proof {
            use_type_invariant(self);
        }
        ParamEdit {
            begin: true,
            value: Some(host_normalized(self.option_id, self.num_ids - 1)),
            end: true,
        }
    }
}

/// At every position and at every value of a host, the variant that is
/// selected is one of the `num_ids` variants. So one button is checked, and
/// since a button is checked only for its own variant, no other is.
pub proof fn lemma_one_button_checked(num_ids: int, value: int)
    requires
        num_ids >= 1,
    ensures
        0 <= ordinal_spec(value, num_ids) < num_ids,
        0 <= host_ordinal_spec(value, num_ids - 1) < num_ids,
{
}

} // verus!
