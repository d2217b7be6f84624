//! The names of well-known properties and the strings that some of their values hold.

use vstd::prelude::*;

verus! {

/// The names of the properties that nodes are decoded from.
pub struct PropertyKeys;

/// The property name `#address-cells`.
pub open spec fn key_address_cells() -> Seq<u8> {
    seq![35u8, 97, 100, 100, 114, 101, 115, 115, 45, 99, 101, 108, 108, 115]
}

/// The property name `#size-cells`.
pub open spec fn key_size_cells() -> Seq<u8> {
    seq![35u8, 115, 105, 122, 101, 45, 99, 101, 108, 108, 115]
}

/// The property name `reg`.
pub open spec fn key_reg() -> Seq<u8> {
    seq![114u8, 101, 103]
}

/// The property name `ranges`.
pub open spec fn key_ranges() -> Seq<u8> {
    seq![114u8, 97, 110, 103, 101, 115]
}

/// The property name `compatible`.
pub open spec fn key_compatible() -> Seq<u8> {
    seq![99u8, 111, 109, 112, 97, 116, 105, 98, 108, 101]
}

/// The property name `chassis-type`.
pub open spec fn key_chassis() -> Seq<u8> {
    seq![99u8, 104, 97, 115, 115, 105, 115, 45, 116, 121, 112, 101]
}

/// The property name `model`.
pub open spec fn key_model() -> Seq<u8> {
    seq![109u8, 111, 100, 101, 108]
}

/// The property name `status`.
pub open spec fn key_status() -> Seq<u8> {
    seq![115u8, 116, 97, 116, 117, 115]
}

/// The property name `device_type`.
pub open spec fn key_device_type() -> Seq<u8> {
    seq![100u8, 101, 118, 105, 99, 101, 95, 116, 121, 112, 101]
}

/// The property name `serial-number`.
pub open spec fn key_serial_number() -> Seq<u8> {
    seq![115u8, 101, 114, 105, 97, 108, 45, 110, 117, 109, 98, 101, 114]
}

/// The property name `reusable`.
pub open spec fn key_reusable() -> Seq<u8> {
    seq![114u8, 101, 117, 115, 97, 98, 108, 101]
}

/// The property name `size`.
pub open spec fn key_size() -> Seq<u8> {
    seq![115u8, 105, 122, 101]
}

/// The property name `alignment`.
pub open spec fn key_alignment() -> Seq<u8> {
    seq![97u8, 108, 105, 103, 110, 109, 101, 110, 116]
}

/// The property name `no-map`.
pub open spec fn key_no_map() -> Seq<u8> {
    seq![110u8, 111, 45, 109, 97, 112]
}

/// The property name `alloc-ranges`.
pub open spec fn key_alloc_ranges() -> Seq<u8> {
    seq![97u8, 108, 108, 111, 99, 45, 114, 97, 110, 103, 101, 115]
}

/// The property name `hotpluggable`.
pub open spec fn key_hotpluggable() -> Seq<u8> {
    seq![104u8, 111, 116, 112, 108, 117, 103, 103, 97, 98, 108, 101]
}

/// The property name `phandle`.
pub open spec fn key_phandle() -> Seq<u8> {
    seq![112u8, 104, 97, 110, 100, 108, 101]
}

/// The property name `cache-level`.
pub open spec fn key_cache_level() -> Seq<u8> {
    seq![99u8, 97, 99, 104, 101, 45, 108, 101, 118, 101, 108]
}

/// The property name `cpu-release-addr`.
pub open spec fn key_cpu_release_addr() -> Seq<u8> {
    seq![99u8, 112, 117, 45, 114, 101, 108, 101, 97, 115, 101, 45, 97, 100, 100, 114]
}

/// The property name `cache-unified`.
pub open spec fn key_cache_unified() -> Seq<u8> {
    seq![99u8, 97, 99, 104, 101, 45, 117, 110, 105, 102, 105, 101, 100]
}

/// The property name `next-level-cache`.
pub open spec fn key_next_level_cache() -> Seq<u8> {
    seq![110u8, 101, 120, 116, 45, 108, 101, 118, 101, 108, 45, 99, 97, 99, 104, 101]
}

/// The property name `enable-method`.
pub open spec fn key_enable_method() -> Seq<u8> {
    seq![101u8, 110, 97, 98, 108, 101, 45, 109, 101, 116, 104, 111, 100]
}

/// The property name `bootargs`.
pub open spec fn key_bootargs() -> Seq<u8> {
    seq![98u8, 111, 111, 116, 97, 114, 103, 115]
}

/// The property name `stdin-path`.
pub open spec fn key_stdin_path() -> Seq<u8> {
    seq![115u8, 116, 100, 105, 110, 45, 112, 97, 116, 104]
}

/// The property name `stdout-path`.
pub open spec fn key_stdout_path() -> Seq<u8> {
    seq![115u8, 116, 100, 111, 117, 116, 45, 112, 97, 116, 104]
}

/// The property name `cache-size`.
pub open spec fn key_cache_size() -> Seq<u8> {
    seq![99u8, 97, 99, 104, 101, 45, 115, 105, 122, 101]
}

/// The property name `cache-sets`.
pub open spec fn key_cache_sets() -> Seq<u8> {
    seq![99u8, 97, 99, 104, 101, 45, 115, 101, 116, 115]
}

/// The property name `cache-block-size`.
pub open spec fn key_cache_block_size() -> Seq<u8> {
    seq![99u8, 97, 99, 104, 101, 45, 98, 108, 111, 99, 107, 45, 115, 105, 122, 101]
}

/// The property name `cache-line-size`.
pub open spec fn key_cache_line_size() -> Seq<u8> {
    seq![99u8, 97, 99, 104, 101, 45, 108, 105, 110, 101, 45, 115, 105, 122, 101]
}

/// The property name `i-cache-size`.
pub open spec fn key_i_cache_size() -> Seq<u8> {
    seq![105u8, 45, 99, 97, 99, 104, 101, 45, 115, 105, 122, 101]
}

/// The property name `i-cache-sets`.
pub open spec fn key_i_cache_sets() -> Seq<u8> {
    seq![105u8, 45, 99, 97, 99, 104, 101, 45, 115, 101, 116, 115]
}

/// The property name `i-cache-block-size`.
pub open spec fn key_i_cache_block_size() -> Seq<u8> {
    seq![105u8, 45, 99, 97, 99, 104, 101, 45, 98, 108, 111, 99, 107, 45, 115, 105, 122, 101]
}

/// The property name `i-cache-line-size`.
pub open spec fn key_i_cache_line_size() -> Seq<u8> {
    seq![105u8, 45, 99, 97, 99, 104, 101, 45, 108, 105, 110, 101, 45, 115, 105, 122, 101]
}

/// The property name `d-cache-size`.
pub open spec fn key_d_cache_size() -> Seq<u8> {
    seq![100u8, 45, 99, 97, 99, 104, 101, 45, 115, 105, 122, 101]
}

/// The property name `d-cache-sets`.
pub open spec fn key_d_cache_sets() -> Seq<u8> {
    seq![100u8, 45, 99, 97, 99, 104, 101, 45, 115, 101, 116, 115]
}

/// The property name `d-cache-block-size`.
pub open spec fn key_d_cache_block_size() -> Seq<u8> {
    seq![100u8, 45, 99, 97, 99, 104, 101, 45, 98, 108, 111, 99, 107, 45, 115, 105, 122, 101]
}

/// The property name `d-cache-line-size`.
pub open spec fn key_d_cache_line_size() -> Seq<u8> {
    seq![100u8, 45, 99, 97, 99, 104, 101, 45, 108, 105, 110, 101, 45, 115, 105, 122, 101]
}

impl PropertyKeys {
    /// The property name `#address-cells`.
    pub fn address_cells() -> (r: Vec<u8>)
        ensures
            r@ == key_address_cells(),
    {
        let v: Vec<u8> = vec![35u8, 97, 100, 100, 114, 101, 115, 115, 45, 99, 101, 108, 108, 115];
        assert(v@ =~= key_address_cells());
        v
    }

    /// The property name `#size-cells`.
    pub fn size_cells() -> (r: Vec<u8>)
        ensures
            r@ == key_size_cells(),
    {
        let v: Vec<u8> = vec![35u8, 115, 105, 122, 101, 45, 99, 101, 108, 108, 115];
        assert(v@ =~= key_size_cells());
        v
    }

    /// The property name `reg`.
    pub fn reg() -> (r: Vec<u8>)
        ensures
            r@ == key_reg(),
    {
        let v: Vec<u8> = vec![114u8, 101, 103];
        assert(v@ =~= key_reg());
        v
    }

    /// The property name `ranges`.
    pub fn ranges() -> (r: Vec<u8>)
        ensures
            r@ == key_ranges(),
    {
        let v: Vec<u8> = vec![114u8, 97, 110, 103, 101, 115];
        assert(v@ =~= key_ranges());
        v
    }

    /// The property name `compatible`.
    pub fn compatible() -> (r: Vec<u8>)
        ensures
            r@ == key_compatible(),
    {
        let v: Vec<u8> = vec![99u8, 111, 109, 112, 97, 116, 105, 98, 108, 101];
        assert(v@ =~= key_compatible());
        v
    }

    /// The property name `chassis-type`.
    pub fn chassis() -> (r: Vec<u8>)
        ensures
            r@ == key_chassis(),
    {
        let v: Vec<u8> = vec![99u8, 104, 97, 115, 115, 105, 115, 45, 116, 121, 112, 101];
        assert(v@ =~= key_chassis());
        v
    }

    /// The property name `model`.
    pub fn model() -> (r: Vec<u8>)
        ensures
            r@ == key_model(),
    {
        let v: Vec<u8> = vec![109u8, 111, 100, 101, 108];
        assert(v@ =~= key_model());
        v
    }

    /// The property name `status`.
    pub fn status() -> (r: Vec<u8>)
        ensures
            r@ == key_status(),
    {
        let v: Vec<u8> = vec![115u8, 116, 97, 116, 117, 115];
        assert(v@ =~= key_status());
        v
    }

    /// The property name `device_type`.
    pub fn device_type() -> (r: Vec<u8>)
        ensures
            r@ == key_device_type(),
    {
        let v: Vec<u8> = vec![100u8, 101, 118, 105, 99, 101, 95, 116, 121, 112, 101];
        assert(v@ =~= key_device_type());
        v
    }

    /// The property name `serial-number`.
    pub fn serial_number() -> (r: Vec<u8>)
        ensures
            r@ == key_serial_number(),
    {
        let v: Vec<u8> = vec![115u8, 101, 114, 105, 97, 108, 45, 110, 117, 109, 98, 101, 114];
        assert(v@ =~= key_serial_number());
        v
    }

    /// The property name `reusable`.
    pub fn reusable() -> (r: Vec<u8>)
        ensures
            r@ == key_reusable(),
    {
        let v: Vec<u8> = vec![114u8, 101, 117, 115, 97, 98, 108, 101];
        assert(v@ =~= key_reusable());
        v
    }

    /// The property name `size`.
    pub fn size() -> (r: Vec<u8>)
        ensures
            r@ == key_size(),
    {
        let v: Vec<u8> = vec![115u8, 105, 122, 101];
        assert(v@ =~= key_size());
        v
    }

    /// The property name `alignment`.
    pub fn alignment() -> (r: Vec<u8>)
        ensures
            r@ == key_alignment(),
    {
        let v: Vec<u8> = vec![97u8, 108, 105, 103, 110, 109, 101, 110, 116];
        assert(v@ =~= key_alignment());
        v
    }

    /// The property name `no-map`.
    pub fn no_map() -> (r: Vec<u8>)
        ensures
            r@ == key_no_map(),
    {
        let v: Vec<u8> = vec![110u8, 111, 45, 109, 97, 112];
        assert(v@ =~= key_no_map());
        v
    }

    /// The property name `alloc-ranges`.
    pub fn alloc_ranges() -> (r: Vec<u8>)
        ensures
            r@ == key_alloc_ranges(),
    {
        let v: Vec<u8> = vec![97u8, 108, 108, 111, 99, 45, 114, 97, 110, 103, 101, 115];
        assert(v@ =~= key_alloc_ranges());
        v
    }

    /// The property name `hotpluggable`.
    pub fn hotpluggable() -> (r: Vec<u8>)
        ensures
            r@ == key_hotpluggable(),
    {
        let v: Vec<u8> = vec![104u8, 111, 116, 112, 108, 117, 103, 103, 97, 98, 108, 101];
        assert(v@ =~= key_hotpluggable());
        v
    }

    /// The property name `phandle`.
    pub fn phandle() -> (r: Vec<u8>)
        ensures
            r@ == key_phandle(),
    {
        let v: Vec<u8> = vec![112u8, 104, 97, 110, 100, 108, 101];
        assert(v@ =~= key_phandle());
        v
    }

    /// The property name `cache-level`.
    pub fn cache_level() -> (r: Vec<u8>)
        ensures
            r@ == key_cache_level(),
    {
        let v: Vec<u8> = vec![99u8, 97, 99, 104, 101, 45, 108, 101, 118, 101, 108];
        assert(v@ =~= key_cache_level());
        v
    }

    /// The property name `cpu-release-addr`.
    pub fn cpu_release_addr() -> (r: Vec<u8>)
        ensures
            r@ == key_cpu_release_addr(),
    {
        let v: Vec<u8> = vec![99u8, 112, 117, 45, 114, 101, 108, 101, 97, 115, 101, 45, 97, 100, 100, 114];
        assert(v@ =~= key_cpu_release_addr());
        v
    }

    /// The property name `cache-unified`.
    pub fn cache_unified() -> (r: Vec<u8>)
        ensures
            r@ == key_cache_unified(),
    {
        let v: Vec<u8> = vec![99u8, 97, 99, 104, 101, 45, 117, 110, 105, 102, 105, 101, 100];
        assert(v@ =~= key_cache_unified());
        v
    }

    /// The property name `next-level-cache`.
    pub fn next_level_cache() -> (r: Vec<u8>)
        ensures
            r@ == key_next_level_cache(),
    {
        let v: Vec<u8> = vec![110u8, 101, 120, 116, 45, 108, 101, 118, 101, 108, 45, 99, 97, 99, 104, 101];
        assert(v@ =~= key_next_level_cache());
        v
    }

    /// The property name `enable-method`.
    pub fn enable_method() -> (r: Vec<u8>)
        ensures
            r@ == key_enable_method(),
    {
        let v: Vec<u8> = vec![101u8, 110, 97, 98, 108, 101, 45, 109, 101, 116, 104, 111, 100];
        assert(v@ =~= key_enable_method());
        v
    }

    /// The property name `bootargs`.
    pub fn bootargs() -> (r: Vec<u8>)
        ensures
            r@ == key_bootargs(),
    {
        let v: Vec<u8> = vec![98u8, 111, 111, 116, 97, 114, 103, 115];
        assert(v@ =~= key_bootargs());
        v
    }

    /// The property name `stdin-path`.
    pub fn stdin_path() -> (r: Vec<u8>)
        ensures
            r@ == key_stdin_path(),
    {
        let v: Vec<u8> = vec![115u8, 116, 100, 105, 110, 45, 112, 97, 116, 104];
        assert(v@ =~= key_stdin_path());
        v
    }

    /// The property name `stdout-path`.
    pub fn stdout_path() -> (r: Vec<u8>)
        ensures
            r@ == key_stdout_path(),
    {
        let v: Vec<u8> = vec![115u8, 116, 100, 111, 117, 116, 45, 112, 97, 116, 104];
        assert(v@ =~= key_stdout_path());
        v
    }

    /// The property name `cache-size`.
    pub fn cache_size() -> (r: Vec<u8>)
        ensures
            r@ == key_cache_size(),
    {
        let v: Vec<u8> = vec![99u8, 97, 99, 104, 101, 45, 115, 105, 122, 101];
        assert(v@ =~= key_cache_size());
        v
    }

    /// The property name `cache-sets`.
    pub fn cache_sets() -> (r: Vec<u8>)
        ensures
            r@ == key_cache_sets(),
    {
        let v: Vec<u8> = vec![99u8, 97, 99, 104, 101, 45, 115, 101, 116, 115];
        assert(v@ =~= key_cache_sets());
        v
    }

    /// The property name `cache-block-size`.
    pub fn cache_block_size() -> (r: Vec<u8>)
        ensures
            r@ == key_cache_block_size(),
    {
        let v: Vec<u8> = vec![99u8, 97, 99, 104, 101, 45, 98, 108, 111, 99, 107, 45, 115, 105, 122, 101];
        assert(v@ =~= key_cache_block_size());
        v
    }

    /// The property name `cache-line-size`.
    pub fn cache_line_size() -> (r: Vec<u8>)
        ensures
            r@ == key_cache_line_size(),
    {
        let v: Vec<u8> = vec![99u8, 97, 99, 104, 101, 45, 108, 105, 110, 101, 45, 115, 105, 122, 101];
        assert(v@ =~= key_cache_line_size());
        v
    }

    /// The property name `i-cache-size`.
    pub fn i_cache_size() -> (r: Vec<u8>)
        ensures
            r@ == key_i_cache_size(),
    {
        let v: Vec<u8> = vec![105u8, 45, 99, 97, 99, 104, 101, 45, 115, 105, 122, 101];
        assert(v@ =~= key_i_cache_size());
        v
    }

    /// The property name `i-cache-sets`.
    pub fn i_cache_sets() -> (r: Vec<u8>)
        ensures
            r@ == key_i_cache_sets(),
    {
        let v: Vec<u8> = vec![105u8, 45, 99, 97, 99, 104, 101, 45, 115, 101, 116, 115];
        assert(v@ =~= key_i_cache_sets());
        v
    }

    /// The property name `i-cache-block-size`.
    pub fn i_cache_block_size() -> (r: Vec<u8>)
        ensures
            r@ == key_i_cache_block_size(),
    {
        let v: Vec<u8> = vec![105u8, 45, 99, 97, 99, 104, 101, 45, 98, 108, 111, 99, 107, 45, 115, 105, 122, 101];
        assert(v@ =~= key_i_cache_block_size());
        v
    }

    /// The property name `i-cache-line-size`.
    pub fn i_cache_line_size() -> (r: Vec<u8>)
        ensures
            r@ == key_i_cache_line_size(),
    {
        let v: Vec<u8> = vec![105u8, 45, 99, 97, 99, 104, 101, 45, 108, 105, 110, 101, 45, 115, 105, 122, 101];
        assert(v@ =~= key_i_cache_line_size());
        v
    }

    /// The property name `d-cache-size`.
    pub fn d_cache_size() -> (r: Vec<u8>)
        ensures
            r@ == key_d_cache_size(),
    {
        let v: Vec<u8> = vec![100u8, 45, 99, 97, 99, 104, 101, 45, 115, 105, 122, 101];
        assert(v@ =~= key_d_cache_size());
        v
    }

    /// The property name `d-cache-sets`.
    pub fn d_cache_sets() -> (r: Vec<u8>)
        ensures
            r@ == key_d_cache_sets(),
    {
        let v: Vec<u8> = vec![100u8, 45, 99, 97, 99, 104, 101, 45, 115, 101, 116, 115];
        assert(v@ =~= key_d_cache_sets());
        v
    }

    /// The property name `d-cache-block-size`.
    pub fn d_cache_block_size() -> (r: Vec<u8>)
        ensures
            r@ == key_d_cache_block_size(),
    {
        let v: Vec<u8> = vec![100u8, 45, 99, 97, 99, 104, 101, 45, 98, 108, 111, 99, 107, 45, 115, 105, 122, 101];
        assert(v@ =~= key_d_cache_block_size());
        v
    }

    /// The property name `d-cache-line-size`.
    pub fn d_cache_line_size() -> (r: Vec<u8>)
        ensures
            r@ == key_d_cache_line_size(),
    {
        let v: Vec<u8> = vec![100u8, 45, 99, 97, 99, 104, 101, 45, 108, 105, 110, 101, 45, 115, 105, 122, 101];
        assert(v@ =~= key_d_cache_line_size());
        v
    }
}

/// The bytes `okay`.
pub open spec fn word_okay() -> Seq<u8> {
    seq![111u8, 107, 97, 121]
}

/// The bytes `okay`.
pub fn okay_word() -> (r: Vec<u8>)
    ensures
        r@ == word_okay(),
{
    let v: Vec<u8> = vec![111u8, 107, 97, 121];
    assert(v@ =~= word_okay());
    v
}

/// The bytes `disabled`.
pub open spec fn word_disabled() -> Seq<u8> {
    seq![100u8, 105, 115, 97, 98, 108, 101, 100]
}

/// The bytes `disabled`.
pub fn disabled_word() -> (r: Vec<u8>)
    ensures
        r@ == word_disabled(),
{
    let v: Vec<u8> = vec![100u8, 105, 115, 97, 98, 108, 101, 100];
    assert(v@ =~= word_disabled());
    v
}

/// The bytes `reserved`.
pub open spec fn word_reserved() -> Seq<u8> {
    seq![114u8, 101, 115, 101, 114, 118, 101, 100]
}

/// The bytes `reserved`.
pub fn reserved_word() -> (r: Vec<u8>)
    ensures
        r@ == word_reserved(),
{
    let v: Vec<u8> = vec![114u8, 101, 115, 101, 114, 118, 101, 100];
    assert(v@ =~= word_reserved());
    v
}

/// The bytes `fail`.
pub open spec fn word_fail() -> Seq<u8> {
    seq![102u8, 97, 105, 108]
}

/// The bytes `fail`.
pub fn fail_word() -> (r: Vec<u8>)
    ensures
        r@ == word_fail(),
{
    let v: Vec<u8> = vec![102u8, 97, 105, 108];
    assert(v@ =~= word_fail());
    v
}

/// The bytes `spin-table`.
pub open spec fn word_spin_table() -> Seq<u8> {
    seq![115u8, 112, 105, 110, 45, 116, 97, 98, 108, 101]
}

/// The bytes `spin-table`.
pub fn spin_table_word() -> (r: Vec<u8>)
    ensures
        r@ == word_spin_table(),
{
    let v: Vec<u8> = vec![115u8, 112, 105, 110, 45, 116, 97, 98, 108, 101];
    assert(v@ =~= word_spin_table());
    v
}

/// The bytes `cpu`.
pub open spec fn word_cpu() -> Seq<u8> {
    seq![99u8, 112, 117]
}

/// The bytes `cpu`.
pub fn cpu_word() -> (r: Vec<u8>)
    ensures
        r@ == word_cpu(),
{
    let v: Vec<u8> = vec![99u8, 112, 117];
    assert(v@ =~= word_cpu());
    v
}

/// The bytes `cache`.
pub open spec fn word_cache() -> Seq<u8> {
    seq![99u8, 97, 99, 104, 101]
}

/// The bytes `cache`.
pub fn cache_word() -> (r: Vec<u8>)
    ensures
        r@ == word_cache(),
{
    let v: Vec<u8> = vec![99u8, 97, 99, 104, 101];
    assert(v@ =~= word_cache());
    v
}

/// The bytes `memory`.
pub open spec fn word_memory() -> Seq<u8> {
    seq![109u8, 101, 109, 111, 114, 121]
}

/// The bytes `memory`.
pub fn memory_word() -> (r: Vec<u8>)
    ensures
        r@ == word_memory(),
{
    let v: Vec<u8> = vec![109u8, 101, 109, 111, 114, 121];
    assert(v@ =~= word_memory());
    v
}

/// The bytes `shared-dma-pool`.
pub open spec fn word_shared_dma_pool() -> Seq<u8> {
    seq![115u8, 104, 97, 114, 101, 100, 45, 100, 109, 97, 45, 112, 111, 111, 108]
}

/// The bytes `shared-dma-pool`.
pub fn shared_dma_pool_word() -> (r: Vec<u8>)
    ensures
        r@ == word_shared_dma_pool(),
{
    let v: Vec<u8> = vec![115u8, 104, 97, 114, 101, 100, 45, 100, 109, 97, 45, 112, 111, 111, 108];
    assert(v@ =~= word_shared_dma_pool());
    v
}

/// The bytes `desktop`.
pub open spec fn word_desktop() -> Seq<u8> {
    seq![100u8, 101, 115, 107, 116, 111, 112]
}

/// The bytes `desktop`.
pub fn desktop_word() -> (r: Vec<u8>)
    ensures
        r@ == word_desktop(),
{
    let v: Vec<u8> = vec![100u8, 101, 115, 107, 116, 111, 112];
    assert(v@ =~= word_desktop());
    v
}

/// The bytes `laptop`.
pub open spec fn word_laptop() -> Seq<u8> {
    seq![108u8, 97, 112, 116, 111, 112]
}

/// The bytes `laptop`.
pub fn laptop_word() -> (r: Vec<u8>)
    ensures
        r@ == word_laptop(),
{
    let v: Vec<u8> = vec![108u8, 97, 112, 116, 111, 112];
    assert(v@ =~= word_laptop());
    v
}

/// The bytes `convertible`.
pub open spec fn word_convertible() -> Seq<u8> {
    seq![99u8, 111, 110, 118, 101, 114, 116, 105, 98, 108, 101]
}

/// The bytes `convertible`.
pub fn convertible_word() -> (r: Vec<u8>)
    ensures
        r@ == word_convertible(),
{
    let v: Vec<u8> = vec![99u8, 111, 110, 118, 101, 114, 116, 105, 98, 108, 101];
    assert(v@ =~= word_convertible());
    v
}

/// The bytes `server`.
pub open spec fn word_server() -> Seq<u8> {
    seq![115u8, 101, 114, 118, 101, 114]
}

/// The bytes `server`.
pub fn server_word() -> (r: Vec<u8>)
    ensures
        r@ == word_server(),
{
    let v: Vec<u8> = vec![115u8, 101, 114, 118, 101, 114];
    assert(v@ =~= word_server());
    v
}

/// The bytes `tablet`.
pub open spec fn word_tablet() -> Seq<u8> {
    seq![116u8, 97, 98, 108, 101, 116]
}

/// The bytes `tablet`.
pub fn tablet_word() -> (r: Vec<u8>)
    ensures
        r@ == word_tablet(),
{
    let v: Vec<u8> = vec![116u8, 97, 98, 108, 101, 116];
    assert(v@ =~= word_tablet());
    v
}

/// The bytes `handset`.
pub open spec fn word_handset() -> Seq<u8> {
    seq![104u8, 97, 110, 100, 115, 101, 116]
}

/// The bytes `handset`.
pub fn handset_word() -> (r: Vec<u8>)
    ensures
        r@ == word_handset(),
{
    let v: Vec<u8> = vec![104u8, 97, 110, 100, 115, 101, 116];
    assert(v@ =~= word_handset());
    v
}

/// The bytes `watch`.
pub open spec fn word_watch() -> Seq<u8> {
    seq![119u8, 97, 116, 99, 104]
}

/// The bytes `watch`.
pub fn watch_word() -> (r: Vec<u8>)
    ensures
        r@ == word_watch(),
{
    let v: Vec<u8> = vec![119u8, 97, 116, 99, 104];
    assert(v@ =~= word_watch());
    v
}

/// The bytes `embedded`.
pub open spec fn word_embedded() -> Seq<u8> {
    seq![101u8, 109, 98, 101, 100, 100, 101, 100]
}

/// The bytes `embedded`.
pub fn embedded_word() -> (r: Vec<u8>)
    ensures
        r@ == word_embedded(),
{
    let v: Vec<u8> = vec![101u8, 109, 98, 101, 100, 100, 101, 100];
    assert(v@ =~= word_embedded());
    v
}

/// The bytes `cpus`.
pub open spec fn word_cpus() -> Seq<u8> {
    seq![99u8, 112, 117, 115]
}

/// The bytes `cpus`.
pub fn cpus_word() -> (r: Vec<u8>)
    ensures
        r@ == word_cpus(),
{
    let v: Vec<u8> = vec![99u8, 112, 117, 115];
    assert(v@ =~= word_cpus());
    v
}

/// The bytes `reserved-memory`.
pub open spec fn word_reserved_memory() -> Seq<u8> {
    seq![114u8, 101, 115, 101, 114, 118, 101, 100, 45, 109, 101, 109, 111, 114, 121]
}

/// The bytes `reserved-memory`.
pub fn reserved_memory_word() -> (r: Vec<u8>)
    ensures
        r@ == word_reserved_memory(),
{
    let v: Vec<u8> = vec![114u8, 101, 115, 101, 114, 118, 101, 100, 45, 109, 101, 109, 111, 114, 121];
    assert(v@ =~= word_reserved_memory());
    v
}

/// The bytes `aliases`.
pub open spec fn word_aliases() -> Seq<u8> {
    seq![97u8, 108, 105, 97, 115, 101, 115]
}

/// The bytes `aliases`.
pub fn aliases_word() -> (r: Vec<u8>)
    ensures
        r@ == word_aliases(),
{
    let v: Vec<u8> = vec![97u8, 108, 105, 97, 115, 101, 115];
    assert(v@ =~= word_aliases());
    v
}

/// The bytes `chosen`.
pub open spec fn word_chosen() -> Seq<u8> {
    seq![99u8, 104, 111, 115, 101, 110]
}

/// The bytes `chosen`.
pub fn chosen_word() -> (r: Vec<u8>)
    ensures
        r@ == word_chosen(),
{
    let v: Vec<u8> = vec![99u8, 104, 111, 115, 101, 110];
    assert(v@ =~= word_chosen());
    v
}

/// The names that a device node is decoded from differ.
pub proof fn lemma_device_keys_distinct()
    ensures
        key_address_cells() != key_size_cells(),
        key_address_cells() != key_reg(),
        key_address_cells() != key_compatible(),
        key_address_cells() != key_model(),
        key_address_cells() != key_ranges(),
        key_address_cells() != key_status(),
        key_address_cells() != key_phandle(),
        key_size_cells() != key_reg(),
        key_size_cells() != key_compatible(),
        key_size_cells() != key_model(),
        key_size_cells() != key_ranges(),
        key_size_cells() != key_status(),
        key_size_cells() != key_phandle(),
        key_reg() != key_compatible(),
        key_reg() != key_model(),
        key_reg() != key_ranges(),
        key_reg() != key_status(),
        key_reg() != key_phandle(),
        key_compatible() != key_model(),
        key_compatible() != key_ranges(),
        key_compatible() != key_status(),
        key_compatible() != key_phandle(),
        key_model() != key_ranges(),
        key_model() != key_status(),
        key_model() != key_phandle(),
        key_ranges() != key_status(),
        key_ranges() != key_phandle(),
        key_status() != key_phandle(),
{
    assert(key_address_cells().len() != key_size_cells().len());
    assert(key_address_cells().len() != key_reg().len());
    assert(key_address_cells().len() != key_compatible().len());
    assert(key_address_cells().len() != key_model().len());
    assert(key_address_cells().len() != key_ranges().len());
    assert(key_address_cells().len() != key_status().len());
    assert(key_address_cells().len() != key_phandle().len());
    assert(key_size_cells().len() != key_reg().len());
    assert(key_size_cells().len() != key_compatible().len());
    assert(key_size_cells().len() != key_model().len());
    assert(key_size_cells().len() != key_ranges().len());
    assert(key_size_cells().len() != key_status().len());
    assert(key_size_cells().len() != key_phandle().len());
    assert(key_reg().len() != key_compatible().len());
    assert(key_reg().len() != key_model().len());
    assert(key_reg().len() != key_ranges().len());
    assert(key_reg().len() != key_status().len());
    assert(key_reg().len() != key_phandle().len());
    assert(key_compatible().len() != key_model().len());
    assert(key_compatible().len() != key_ranges().len());
    assert(key_compatible().len() != key_status().len());
    assert(key_compatible().len() != key_phandle().len());
    assert(key_model().len() != key_ranges().len());
    assert(key_model().len() != key_status().len());
    assert(key_model().len() != key_phandle().len());
    assert(key_ranges()[0] != key_status()[0]);
    assert(key_ranges().len() != key_phandle().len());
    assert(key_status().len() != key_phandle().len());
}


/// The names that a cache node is decoded from differ.
pub proof fn lemma_cache_node_keys_distinct()
    ensures
        key_compatible() != key_phandle(),
        key_compatible() != key_cache_level(),
        key_compatible() != key_cache_size(),
        key_compatible() != key_cache_sets(),
        key_compatible() != key_cache_block_size(),
        key_compatible() != key_cache_line_size(),
        key_compatible() != key_address_cells(),
        key_compatible() != key_size_cells(),
        key_phandle() != key_cache_level(),
        key_phandle() != key_cache_size(),
        key_phandle() != key_cache_sets(),
        key_phandle() != key_cache_block_size(),
        key_phandle() != key_cache_line_size(),
        key_phandle() != key_address_cells(),
        key_phandle() != key_size_cells(),
        key_cache_level() != key_cache_size(),
        key_cache_level() != key_cache_sets(),
        key_cache_level() != key_cache_block_size(),
        key_cache_level() != key_cache_line_size(),
        key_cache_level() != key_address_cells(),
        key_cache_level() != key_size_cells(),
        key_cache_size() != key_cache_sets(),
        key_cache_size() != key_cache_block_size(),
        key_cache_size() != key_cache_line_size(),
        key_cache_size() != key_address_cells(),
        key_cache_size() != key_size_cells(),
        key_cache_sets() != key_cache_block_size(),
        key_cache_sets() != key_cache_line_size(),
        key_cache_sets() != key_address_cells(),
        key_cache_sets() != key_size_cells(),
        key_cache_block_size() != key_cache_line_size(),
        key_cache_block_size() != key_address_cells(),
        key_cache_block_size() != key_size_cells(),
        key_cache_line_size() != key_address_cells(),
        key_cache_line_size() != key_size_cells(),
        key_address_cells() != key_size_cells(),
{
    assert(key_compatible().len() != key_phandle().len());
    assert(key_compatible().len() != key_cache_level().len());
    assert(key_compatible()[1] != key_cache_size()[1]);
    assert(key_compatible()[1] != key_cache_sets()[1]);
    assert(key_compatible().len() != key_cache_block_size().len());
    assert(key_compatible().len() != key_cache_line_size().len());
    assert(key_compatible().len() != key_address_cells().len());
    assert(key_compatible().len() != key_size_cells().len());
    assert(key_phandle().len() != key_cache_level().len());
    assert(key_phandle().len() != key_cache_size().len());
    assert(key_phandle().len() != key_cache_sets().len());
    assert(key_phandle().len() != key_cache_block_size().len());
    assert(key_phandle().len() != key_cache_line_size().len());
    assert(key_phandle().len() != key_address_cells().len());
    assert(key_phandle().len() != key_size_cells().len());
    assert(key_cache_level().len() != key_cache_size().len());
    assert(key_cache_level().len() != key_cache_sets().len());
    assert(key_cache_level().len() != key_cache_block_size().len());
    assert(key_cache_level().len() != key_cache_line_size().len());
    assert(key_cache_level().len() != key_address_cells().len());
    assert(key_cache_level()[0] != key_size_cells()[0]);
    assert(key_cache_size()[7] != key_cache_sets()[7]);
    assert(key_cache_size().len() != key_cache_block_size().len());
    assert(key_cache_size().len() != key_cache_line_size().len());
    assert(key_cache_size().len() != key_address_cells().len());
    assert(key_cache_size().len() != key_size_cells().len());
    assert(key_cache_sets().len() != key_cache_block_size().len());
    assert(key_cache_sets().len() != key_cache_line_size().len());
    assert(key_cache_sets().len() != key_address_cells().len());
    assert(key_cache_sets().len() != key_size_cells().len());
    assert(key_cache_block_size().len() != key_cache_line_size().len());
    assert(key_cache_block_size().len() != key_address_cells().len());
    assert(key_cache_block_size().len() != key_size_cells().len());
    assert(key_cache_line_size().len() != key_address_cells().len());
    assert(key_cache_line_size().len() != key_size_cells().len());
    assert(key_address_cells().len() != key_size_cells().len());
}


/// The names that an L1 cache is read from differ.
pub proof fn lemma_l1_keys_distinct()
    ensures
        key_cache_unified() != key_cache_size(),
        key_cache_unified() != key_cache_sets(),
        key_cache_unified() != key_cache_block_size(),
        key_cache_unified() != key_cache_line_size(),
        key_cache_unified() != key_i_cache_size(),
        key_cache_unified() != key_i_cache_sets(),
        key_cache_unified() != key_i_cache_block_size(),
        key_cache_unified() != key_i_cache_line_size(),
        key_cache_unified() != key_d_cache_size(),
        key_cache_unified() != key_d_cache_sets(),
        key_cache_unified() != key_d_cache_block_size(),
        key_cache_unified() != key_d_cache_line_size(),
        key_cache_size() != key_cache_sets(),
        key_cache_size() != key_cache_block_size(),
        key_cache_size() != key_cache_line_size(),
        key_cache_size() != key_i_cache_size(),
        key_cache_size() != key_i_cache_sets(),
        key_cache_size() != key_i_cache_block_size(),
        key_cache_size() != key_i_cache_line_size(),
        key_cache_size() != key_d_cache_size(),
        key_cache_size() != key_d_cache_sets(),
        key_cache_size() != key_d_cache_block_size(),
        key_cache_size() != key_d_cache_line_size(),
        key_cache_sets() != key_cache_block_size(),
        key_cache_sets() != key_cache_line_size(),
        key_cache_sets() != key_i_cache_size(),
        key_cache_sets() != key_i_cache_sets(),
        key_cache_sets() != key_i_cache_block_size(),
        key_cache_sets() != key_i_cache_line_size(),
        key_cache_sets() != key_d_cache_size(),
        key_cache_sets() != key_d_cache_sets(),
        key_cache_sets() != key_d_cache_block_size(),
        key_cache_sets() != key_d_cache_line_size(),
        key_cache_block_size() != key_cache_line_size(),
        key_cache_block_size() != key_i_cache_size(),
        key_cache_block_size() != key_i_cache_sets(),
        key_cache_block_size() != key_i_cache_block_size(),
        key_cache_block_size() != key_i_cache_line_size(),
        key_cache_block_size() != key_d_cache_size(),
        key_cache_block_size() != key_d_cache_sets(),
        key_cache_block_size() != key_d_cache_block_size(),
        key_cache_block_size() != key_d_cache_line_size(),
        key_cache_line_size() != key_i_cache_size(),
        key_cache_line_size() != key_i_cache_sets(),
        key_cache_line_size() != key_i_cache_block_size(),
        key_cache_line_size() != key_i_cache_line_size(),
        key_cache_line_size() != key_d_cache_size(),
        key_cache_line_size() != key_d_cache_sets(),
        key_cache_line_size() != key_d_cache_block_size(),
        key_cache_line_size() != key_d_cache_line_size(),
        key_i_cache_size() != key_i_cache_sets(),
        key_i_cache_size() != key_i_cache_block_size(),
        key_i_cache_size() != key_i_cache_line_size(),
        key_i_cache_size() != key_d_cache_size(),
        key_i_cache_size() != key_d_cache_sets(),
        key_i_cache_size() != key_d_cache_block_size(),
        key_i_cache_size() != key_d_cache_line_size(),
        key_i_cache_sets() != key_i_cache_block_size(),
        key_i_cache_sets() != key_i_cache_line_size(),
        key_i_cache_sets() != key_d_cache_size(),
        key_i_cache_sets() != key_d_cache_sets(),
        key_i_cache_sets() != key_d_cache_block_size(),
        key_i_cache_sets() != key_d_cache_line_size(),
        key_i_cache_block_size() != key_i_cache_line_size(),
        key_i_cache_block_size() != key_d_cache_size(),
        key_i_cache_block_size() != key_d_cache_sets(),
        key_i_cache_block_size() != key_d_cache_block_size(),
        key_i_cache_block_size() != key_d_cache_line_size(),
        key_i_cache_line_size() != key_d_cache_size(),
        key_i_cache_line_size() != key_d_cache_sets(),
        key_i_cache_line_size() != key_d_cache_block_size(),
        key_i_cache_line_size() != key_d_cache_line_size(),
        key_d_cache_size() != key_d_cache_sets(),
        key_d_cache_size() != key_d_cache_block_size(),
        key_d_cache_size() != key_d_cache_line_size(),
        key_d_cache_sets() != key_d_cache_block_size(),
        key_d_cache_sets() != key_d_cache_line_size(),
        key_d_cache_block_size() != key_d_cache_line_size(),
{
    assert(key_cache_unified().len() != key_cache_size().len());
    assert(key_cache_unified().len() != key_cache_sets().len());
    assert(key_cache_unified().len() != key_cache_block_size().len());
    assert(key_cache_unified().len() != key_cache_line_size().len());
    assert(key_cache_unified().len() != key_i_cache_size().len());
    assert(key_cache_unified().len() != key_i_cache_sets().len());
    assert(key_cache_unified().len() != key_i_cache_block_size().len());
    assert(key_cache_unified().len() != key_i_cache_line_size().len());
    assert(key_cache_unified().len() != key_d_cache_size().len());
    assert(key_cache_unified().len() != key_d_cache_sets().len());
    assert(key_cache_unified().len() != key_d_cache_block_size().len());
    assert(key_cache_unified().len() != key_d_cache_line_size().len());
    assert(key_cache_size()[7] != key_cache_sets()[7]);
    assert(key_cache_size().len() != key_cache_block_size().len());
    assert(key_cache_size().len() != key_cache_line_size().len());
    assert(key_cache_size().len() != key_i_cache_size().len());
    assert(key_cache_size().len() != key_i_cache_sets().len());
    assert(key_cache_size().len() != key_i_cache_block_size().len());
    assert(key_cache_size().len() != key_i_cache_line_size().len());
    assert(key_cache_size().len() != key_d_cache_size().len());
    assert(key_cache_size().len() != key_d_cache_sets().len());
    assert(key_cache_size().len() != key_d_cache_block_size().len());
    assert(key_cache_size().len() != key_d_cache_line_size().len());
    assert(key_cache_sets().len() != key_cache_block_size().len());
    assert(key_cache_sets().len() != key_cache_line_size().len());
    assert(key_cache_sets().len() != key_i_cache_size().len());
    assert(key_cache_sets().len() != key_i_cache_sets().len());
    assert(key_cache_sets().len() != key_i_cache_block_size().len());
    assert(key_cache_sets().len() != key_i_cache_line_size().len());
    assert(key_cache_sets().len() != key_d_cache_size().len());
    assert(key_cache_sets().len() != key_d_cache_sets().len());
    assert(key_cache_sets().len() != key_d_cache_block_size().len());
    assert(key_cache_sets().len() != key_d_cache_line_size().len());
    assert(key_cache_block_size().len() != key_cache_line_size().len());
    assert(key_cache_block_size().len() != key_i_cache_size().len());
    assert(key_cache_block_size().len() != key_i_cache_sets().len());
    assert(key_cache_block_size().len() != key_i_cache_block_size().len());
    assert(key_cache_block_size().len() != key_i_cache_line_size().len());
    assert(key_cache_block_size().len() != key_d_cache_size().len());
    assert(key_cache_block_size().len() != key_d_cache_sets().len());
    assert(key_cache_block_size().len() != key_d_cache_block_size().len());
    assert(key_cache_block_size().len() != key_d_cache_line_size().len());
    assert(key_cache_line_size().len() != key_i_cache_size().len());
    assert(key_cache_line_size().len() != key_i_cache_sets().len());
    assert(key_cache_line_size().len() != key_i_cache_block_size().len());
    assert(key_cache_line_size().len() != key_i_cache_line_size().len());
    assert(key_cache_line_size().len() != key_d_cache_size().len());
    assert(key_cache_line_size().len() != key_d_cache_sets().len());
    assert(key_cache_line_size().len() != key_d_cache_block_size().len());
    assert(key_cache_line_size().len() != key_d_cache_line_size().len());
    assert(key_i_cache_size()[9] != key_i_cache_sets()[9]);
    assert(key_i_cache_size().len() != key_i_cache_block_size().len());
    assert(key_i_cache_size().len() != key_i_cache_line_size().len());
    assert(key_i_cache_size()[0] != key_d_cache_size()[0]);
    assert(key_i_cache_size()[0] != key_d_cache_sets()[0]);
    assert(key_i_cache_size().len() != key_d_cache_block_size().len());
    assert(key_i_cache_size().len() != key_d_cache_line_size().len());
    assert(key_i_cache_sets().len() != key_i_cache_block_size().len());
    assert(key_i_cache_sets().len() != key_i_cache_line_size().len());
    assert(key_i_cache_sets()[0] != key_d_cache_size()[0]);
    assert(key_i_cache_sets()[0] != key_d_cache_sets()[0]);
    assert(key_i_cache_sets().len() != key_d_cache_block_size().len());
    assert(key_i_cache_sets().len() != key_d_cache_line_size().len());
    assert(key_i_cache_block_size().len() != key_i_cache_line_size().len());
    assert(key_i_cache_block_size().len() != key_d_cache_size().len());
    assert(key_i_cache_block_size().len() != key_d_cache_sets().len());
    assert(key_i_cache_block_size()[0] != key_d_cache_block_size()[0]);
    assert(key_i_cache_block_size().len() != key_d_cache_line_size().len());
    assert(key_i_cache_line_size().len() != key_d_cache_size().len());
    assert(key_i_cache_line_size().len() != key_d_cache_sets().len());
    assert(key_i_cache_line_size().len() != key_d_cache_block_size().len());
    assert(key_i_cache_line_size()[0] != key_d_cache_line_size()[0]);
    assert(key_d_cache_size()[9] != key_d_cache_sets()[9]);
    assert(key_d_cache_size().len() != key_d_cache_block_size().len());
    assert(key_d_cache_size().len() != key_d_cache_line_size().len());
    assert(key_d_cache_sets().len() != key_d_cache_block_size().len());
    assert(key_d_cache_sets().len() != key_d_cache_line_size().len());
    assert(key_d_cache_block_size().len() != key_d_cache_line_size().len());
}


/// The names that a CPU node is decoded from differ.
pub proof fn lemma_cpu_keys_distinct()
    ensures
        key_reg() != key_device_type(),
        key_reg() != key_enable_method(),
        key_reg() != key_cpu_release_addr(),
        key_reg() != key_status(),
        key_reg() != key_next_level_cache(),
        key_device_type() != key_enable_method(),
        key_device_type() != key_cpu_release_addr(),
        key_device_type() != key_status(),
        key_device_type() != key_next_level_cache(),
        key_enable_method() != key_cpu_release_addr(),
        key_enable_method() != key_status(),
        key_enable_method() != key_next_level_cache(),
        key_cpu_release_addr() != key_status(),
        key_cpu_release_addr() != key_next_level_cache(),
        key_status() != key_next_level_cache(),
{
    assert(key_reg().len() != key_device_type().len());
    assert(key_reg().len() != key_enable_method().len());
    assert(key_reg().len() != key_cpu_release_addr().len());
    assert(key_reg().len() != key_status().len());
    assert(key_reg().len() != key_next_level_cache().len());
    assert(key_device_type().len() != key_enable_method().len());
    assert(key_device_type().len() != key_cpu_release_addr().len());
    assert(key_device_type().len() != key_status().len());
    assert(key_device_type().len() != key_next_level_cache().len());
    assert(key_enable_method().len() != key_cpu_release_addr().len());
    assert(key_enable_method().len() != key_status().len());
    assert(key_enable_method().len() != key_next_level_cache().len());
    assert(key_cpu_release_addr().len() != key_status().len());
    assert(key_cpu_release_addr()[0] != key_next_level_cache()[0]);
    assert(key_status().len() != key_next_level_cache().len());
}


/// The names that a memory node is decoded from differ.
pub proof fn lemma_memory_keys_distinct()
    ensures
        key_device_type() != key_hotpluggable(),
        key_device_type() != key_reg(),
        key_hotpluggable() != key_reg(),
{
    assert(key_device_type().len() != key_hotpluggable().len());
    assert(key_device_type().len() != key_reg().len());
    assert(key_hotpluggable().len() != key_reg().len());
}


/// The names that a reserved region is decoded from differ.
pub proof fn lemma_reserved_keys_distinct()
    ensures
        key_size() != key_alignment(),
        key_size() != key_reg(),
        key_size() != key_no_map(),
        key_size() != key_reusable(),
        key_size() != key_alloc_ranges(),
        key_size() != key_compatible(),
        key_size() != key_address_cells(),
        key_size() != key_size_cells(),
        key_alignment() != key_reg(),
        key_alignment() != key_no_map(),
        key_alignment() != key_reusable(),
        key_alignment() != key_alloc_ranges(),
        key_alignment() != key_compatible(),
        key_alignment() != key_address_cells(),
        key_alignment() != key_size_cells(),
        key_reg() != key_no_map(),
        key_reg() != key_reusable(),
        key_reg() != key_alloc_ranges(),
        key_reg() != key_compatible(),
        key_reg() != key_address_cells(),
        key_reg() != key_size_cells(),
        key_no_map() != key_reusable(),
        key_no_map() != key_alloc_ranges(),
        key_no_map() != key_compatible(),
        key_no_map() != key_address_cells(),
        key_no_map() != key_size_cells(),
        key_reusable() != key_alloc_ranges(),
        key_reusable() != key_compatible(),
        key_reusable() != key_address_cells(),
        key_reusable() != key_size_cells(),
        key_alloc_ranges() != key_compatible(),
        key_alloc_ranges() != key_address_cells(),
        key_alloc_ranges() != key_size_cells(),
        key_compatible() != key_address_cells(),
        key_compatible() != key_size_cells(),
        key_address_cells() != key_size_cells(),
{
    assert(key_size().len() != key_alignment().len());
    assert(key_size().len() != key_reg().len());
    assert(key_size().len() != key_no_map().len());
    assert(key_size().len() != key_reusable().len());
    assert(key_size().len() != key_alloc_ranges().len());
    assert(key_size().len() != key_compatible().len());
    assert(key_size().len() != key_address_cells().len());
    assert(key_size().len() != key_size_cells().len());
    assert(key_alignment().len() != key_reg().len());
    assert(key_alignment().len() != key_no_map().len());
    assert(key_alignment().len() != key_reusable().len());
    assert(key_alignment().len() != key_alloc_ranges().len());
    assert(key_alignment().len() != key_compatible().len());
    assert(key_alignment().len() != key_address_cells().len());
    assert(key_alignment().len() != key_size_cells().len());
    assert(key_reg().len() != key_no_map().len());
    assert(key_reg().len() != key_reusable().len());
    assert(key_reg().len() != key_alloc_ranges().len());
    assert(key_reg().len() != key_compatible().len());
    assert(key_reg().len() != key_address_cells().len());
    assert(key_reg().len() != key_size_cells().len());
    assert(key_no_map().len() != key_reusable().len());
    assert(key_no_map().len() != key_alloc_ranges().len());
    assert(key_no_map().len() != key_compatible().len());
    assert(key_no_map().len() != key_address_cells().len());
    assert(key_no_map().len() != key_size_cells().len());
    assert(key_reusable().len() != key_alloc_ranges().len());
    assert(key_reusable().len() != key_compatible().len());
    assert(key_reusable().len() != key_address_cells().len());
    assert(key_reusable().len() != key_size_cells().len());
    assert(key_alloc_ranges().len() != key_compatible().len());
    assert(key_alloc_ranges().len() != key_address_cells().len());
    assert(key_alloc_ranges().len() != key_size_cells().len());
    assert(key_compatible().len() != key_address_cells().len());
    assert(key_compatible().len() != key_size_cells().len());
    assert(key_address_cells().len() != key_size_cells().len());
}


/// The names that the chosen node is decoded from differ.
pub proof fn lemma_chosen_keys_distinct()
    ensures
        key_bootargs() != key_stdout_path(),
        key_bootargs() != key_stdin_path(),
        key_stdout_path() != key_stdin_path(),
{
    assert(key_bootargs().len() != key_stdout_path().len());
    assert(key_bootargs().len() != key_stdin_path().len());
    assert(key_stdout_path().len() != key_stdin_path().len());
}


/// The names that the root node is decoded from differ.
pub proof fn lemma_root_keys_distinct()
    ensures
        key_model() != key_compatible(),
        key_model() != key_serial_number(),
        key_model() != key_address_cells(),
        key_model() != key_size_cells(),
        key_model() != key_chassis(),
        key_compatible() != key_serial_number(),
        key_compatible() != key_address_cells(),
        key_compatible() != key_size_cells(),
        key_compatible() != key_chassis(),
        key_serial_number() != key_address_cells(),
        key_serial_number() != key_size_cells(),
        key_serial_number() != key_chassis(),
        key_address_cells() != key_size_cells(),
        key_address_cells() != key_chassis(),
        key_size_cells() != key_chassis(),
{
    assert(key_model().len() != key_compatible().len());
    assert(key_model().len() != key_serial_number().len());
    assert(key_model().len() != key_address_cells().len());
    assert(key_model().len() != key_size_cells().len());
    assert(key_model().len() != key_chassis().len());
    assert(key_compatible().len() != key_serial_number().len());
    assert(key_compatible().len() != key_address_cells().len());
    assert(key_compatible().len() != key_size_cells().len());
    assert(key_compatible().len() != key_chassis().len());
    assert(key_serial_number().len() != key_address_cells().len());
    assert(key_serial_number().len() != key_size_cells().len());
    assert(key_serial_number().len() != key_chassis().len());
    assert(key_address_cells().len() != key_size_cells().len());
    assert(key_address_cells().len() != key_chassis().len());
    assert(key_size_cells().len() != key_chassis().len());
}


} // verus!
