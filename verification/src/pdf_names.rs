//! The dictionary keys and names that the redaction checks read, as bytes.

use vstd::prelude::*;

verus! {

/// `/Root`
pub open spec fn root() -> Seq<u8> {
    seq![82u8, 111u8, 111u8, 116u8]
}

pub fn root_key() -> (r: [u8; 4])
    ensures
        r@ == root(),
{
    let r = [82u8, 111u8, 111u8, 116u8];
    assert(r@ =~= root());
    r
}

/// `/Resources`
pub open spec fn resources() -> Seq<u8> {
    seq![82u8, 101u8, 115u8, 111u8, 117u8, 114u8, 99u8, 101u8, 115u8]
}

pub fn resources_key() -> (r: [u8; 9])
    ensures
        r@ == resources(),
{
    let r = [82u8, 101u8, 115u8, 111u8, 117u8, 114u8, 99u8, 101u8, 115u8];
    assert(r@ =~= resources());
    r
}

/// `/Parent`
pub open spec fn parent() -> Seq<u8> {
    seq![80u8, 97u8, 114u8, 101u8, 110u8, 116u8]
}

pub fn parent_key() -> (r: [u8; 6])
    ensures
        r@ == parent(),
{
    let r = [80u8, 97u8, 114u8, 101u8, 110u8, 116u8];
    assert(r@ =~= parent());
    r
}

/// `/XObject`
pub open spec fn xobject() -> Seq<u8> {
    seq![88u8, 79u8, 98u8, 106u8, 101u8, 99u8, 116u8]
}

pub fn xobject_key() -> (r: [u8; 7])
    ensures
        r@ == xobject(),
{
    let r = [88u8, 79u8, 98u8, 106u8, 101u8, 99u8, 116u8];
    assert(r@ =~= xobject());
    r
}

/// `/Subtype`
pub open spec fn subtype() -> Seq<u8> {
    seq![83u8, 117u8, 98u8, 116u8, 121u8, 112u8, 101u8]
}

pub fn subtype_key() -> (r: [u8; 7])
    ensures
        r@ == subtype(),
{
    let r = [83u8, 117u8, 98u8, 116u8, 121u8, 112u8, 101u8];
    assert(r@ =~= subtype());
    r
}

/// `/Form`
pub open spec fn form() -> Seq<u8> {
    seq![70u8, 111u8, 114u8, 109u8]
}

pub fn form_key() -> (r: [u8; 4])
    ensures
        r@ == form(),
{
    let r = [70u8, 111u8, 114u8, 109u8];
    assert(r@ =~= form());
    r
}

/// `/Image`
pub open spec fn image() -> Seq<u8> {
    seq![73u8, 109u8, 97u8, 103u8, 101u8]
}

pub fn image_key() -> (r: [u8; 5])
    ensures
        r@ == image(),
{
    let r = [73u8, 109u8, 97u8, 103u8, 101u8];
    assert(r@ =~= image());
    r
}

/// `/Annots`
pub open spec fn annots() -> Seq<u8> {
    seq![65u8, 110u8, 110u8, 111u8, 116u8, 115u8]
}

pub fn annots_key() -> (r: [u8; 6])
    ensures
        r@ == annots(),
{
    let r = [65u8, 110u8, 110u8, 111u8, 116u8, 115u8];
    assert(r@ =~= annots());
    r
}

/// `/Contents`
pub open spec fn contents() -> Seq<u8> {
    seq![67u8, 111u8, 110u8, 116u8, 101u8, 110u8, 116u8, 115u8]
}

pub fn contents_key() -> (r: [u8; 8])
    ensures
        r@ == contents(),
{
    let r = [67u8, 111u8, 110u8, 116u8, 101u8, 110u8, 116u8, 115u8];
    assert(r@ =~= contents());
    r
}

/// `/Rect`
pub open spec fn rect() -> Seq<u8> {
    seq![82u8, 101u8, 99u8, 116u8]
}

pub fn rect_key() -> (r: [u8; 4])
    ensures
        r@ == rect(),
{
    let r = [82u8, 101u8, 99u8, 116u8];
    assert(r@ =~= rect());
    r
}

/// `/Widget`
pub open spec fn widget() -> Seq<u8> {
    seq![87u8, 105u8, 100u8, 103u8, 101u8, 116u8]
}

pub fn widget_key() -> (r: [u8; 6])
    ensures
        r@ == widget(),
{
    let r = [87u8, 105u8, 100u8, 103u8, 101u8, 116u8];
    assert(r@ =~= widget());
    r
}

/// `/FT`
pub open spec fn ft_name() -> Seq<u8> {
    seq![70u8, 84u8]
}

pub fn ft_key() -> (r: [u8; 2])
    ensures
        r@ == ft_name(),
{
    let r = [70u8, 84u8];
    assert(r@ =~= ft_name());
    r
}

/// `/V`
pub open spec fn v_name() -> Seq<u8> {
    seq![86u8]
}

pub fn v_key() -> (r: [u8; 1])
    ensures
        r@ == v_name(),
{
    let r = [86u8];
    assert(r@ =~= v_name());
    r
}

/// `/Kids`
pub open spec fn kids() -> Seq<u8> {
    seq![75u8, 105u8, 100u8, 115u8]
}

pub fn kids_key() -> (r: [u8; 4])
    ensures
        r@ == kids(),
{
    let r = [75u8, 105u8, 100u8, 115u8];
    assert(r@ =~= kids());
    r
}

/// `/P`
pub open spec fn p_name() -> Seq<u8> {
    seq![80u8]
}

pub fn p_key() -> (r: [u8; 1])
    ensures
        r@ == p_name(),
{
    let r = [80u8];
    assert(r@ =~= p_name());
    r
}

/// `/AcroForm`
pub open spec fn acro_form() -> Seq<u8> {
    seq![65u8, 99u8, 114u8, 111u8, 70u8, 111u8, 114u8, 109u8]
}

pub fn acro_form_key() -> (r: [u8; 8])
    ensures
        r@ == acro_form(),
{
    let r = [65u8, 99u8, 114u8, 111u8, 70u8, 111u8, 114u8, 109u8];
    assert(r@ =~= acro_form());
    r
}

/// `/Fields`
pub open spec fn fields() -> Seq<u8> {
    seq![70u8, 105u8, 101u8, 108u8, 100u8, 115u8]
}

pub fn fields_key() -> (r: [u8; 6])
    ensures
        r@ == fields(),
{
    let r = [70u8, 105u8, 101u8, 108u8, 100u8, 115u8];
    assert(r@ =~= fields());
    r
}

/// `/Thumb`
pub open spec fn thumb() -> Seq<u8> {
    seq![84u8, 104u8, 117u8, 109u8, 98u8]
}

pub fn thumb_key() -> (r: [u8; 5])
    ensures
        r@ == thumb(),
{
    let r = [84u8, 104u8, 117u8, 109u8, 98u8];
    assert(r@ =~= thumb());
    r
}

/// `/StructTreeRoot`
pub open spec fn struct_tree_root() -> Seq<u8> {
    seq![83u8, 116u8, 114u8, 117u8, 99u8, 116u8, 84u8, 114u8, 101u8, 101u8, 82u8, 111u8, 111u8, 116u8]
}

pub fn struct_tree_root_key() -> (r: [u8; 14])
    ensures
        r@ == struct_tree_root(),
{
    let r = [83u8, 116u8, 114u8, 117u8, 99u8, 116u8, 84u8, 114u8, 101u8, 101u8, 82u8, 111u8, 111u8, 116u8];
    assert(r@ =~= struct_tree_root());
    r
}

/// `/AF`
pub open spec fn af_name() -> Seq<u8> {
    seq![65u8, 70u8]
}

pub fn af_key() -> (r: [u8; 2])
    ensures
        r@ == af_name(),
{
    let r = [65u8, 70u8];
    assert(r@ =~= af_name());
    r
}

/// `/Names`
pub open spec fn names() -> Seq<u8> {
    seq![78u8, 97u8, 109u8, 101u8, 115u8]
}

pub fn names_key() -> (r: [u8; 5])
    ensures
        r@ == names(),
{
    let r = [78u8, 97u8, 109u8, 101u8, 115u8];
    assert(r@ =~= names());
    r
}

/// `/EmbeddedFiles`
pub open spec fn embedded_files() -> Seq<u8> {
    seq![69u8, 109u8, 98u8, 101u8, 100u8, 100u8, 101u8, 100u8, 70u8, 105u8, 108u8, 101u8, 115u8]
}

pub fn embedded_files_key() -> (r: [u8; 13])
    ensures
        r@ == embedded_files(),
{
    let r = [69u8, 109u8, 98u8, 101u8, 100u8, 100u8, 101u8, 100u8, 70u8, 105u8, 108u8, 101u8, 115u8];
    assert(r@ =~= embedded_files());
    r
}

/// `/FileAttachment`
pub open spec fn file_attachment() -> Seq<u8> {
    seq![70u8, 105u8, 108u8, 101u8, 65u8, 116u8, 116u8, 97u8, 99u8, 104u8, 109u8, 101u8, 110u8, 116u8]
}

pub fn file_attachment_key() -> (r: [u8; 14])
    ensures
        r@ == file_attachment(),
{
    let r = [70u8, 105u8, 108u8, 101u8, 65u8, 116u8, 116u8, 97u8, 99u8, 104u8, 109u8, 101u8, 110u8, 116u8];
    assert(r@ =~= file_attachment());
    r
}

/// `/FS`
pub open spec fn fs_name() -> Seq<u8> {
    seq![70u8, 83u8]
}

pub fn fs_key() -> (r: [u8; 2])
    ensures
        r@ == fs_name(),
{
    let r = [70u8, 83u8];
    assert(r@ =~= fs_name());
    r
}

/// `/EF`
pub open spec fn ef_name() -> Seq<u8> {
    seq![69u8, 70u8]
}

pub fn ef_key() -> (r: [u8; 2])
    ensures
        r@ == ef_name(),
{
    let r = [69u8, 70u8];
    assert(r@ =~= ef_name());
    r
}

} // verus!
