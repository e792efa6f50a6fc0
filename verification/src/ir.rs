//! What is made for a schema: the accessor of each field, the fields that
//! count the sequences, and the steps that open the whole.

pub mod accessor;
pub mod new_method;
pub mod struct_def;
