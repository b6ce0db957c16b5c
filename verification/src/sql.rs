//! Table statements for an entity.
use vstd::prelude::*;

use crate::meta::EntityMeta;

verus! {

/// `CREATE TABLE IF NOT EXISTS` for the entity's key and plain fields.
pub fn sql_create_table(entity_meta: &EntityMeta) -> (r: String)
    requires
        entity_meta@.fields_known(),
        entity_meta@.columns_typed(),
    ensures
        r@ == entity_meta@.create_table_sql(),
{
    entity_meta.sql_create_table()
}

/// `DROP TABLE IF EXISTS` for the entity's table.
pub fn sql_drop_table(entity_meta: &EntityMeta) -> (r: String)
    ensures
        r@ == entity_meta@.drop_table_sql(),
{
    entity_meta.sql_drop_table()
}

} // verus!
