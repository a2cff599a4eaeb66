use super::strings::{
    decimal_digits, decrypted_string, lossy_string, name_or, numbered_name, StringDecryptor,
};
use crate::bytes::{le_u32, read_u32_at};
use crate::discovery::mhy::MhyHeader;
use vstd::prelude::*;

verus! {

/// An assembly image: its name and the number of types it defines.
#[derive(Clone)]
pub struct ImageDef {
    pub name: String,
    pub type_count: u32,
    pub name_off: u32,
}

/// The key of image record `i`.
pub open spec fn image_key(i: u32) -> u32 {
    (302843651u32.wrapping_mul(57468u32.wrapping_mul(i) ^ 0x7538159E) ^ 0x6032C9D3).wrapping_add(
        784007301,
    )
}

/// Whether image record `i` of the table at `base` lies in `startup`.
pub open spec fn image_record_fits(startup: Seq<u8>, base: int, i: int) -> bool {
    base + 40 * i + 40 <= startup.len()
}

/// Whether `image` is image record `i` of the table at `base` of `startup`, decoded with the
/// names of `body` and `table`.
pub open spec fn is_image_record_at(
    image: ImageDef,
    startup: Seq<u8>,
    base: int,
    body: Seq<u8>,
    table: nat,
    i: int,
) -> bool {
    let off = base + 40 * i;
    let key = image_key(i as u32);
    &&& image.type_count == key ^ le_u32(startup, off + 4) ^ 0x7FDC8C8F ^ 0x1324FE97
    &&& image.name@ == name_or(
        decrypted_string(body, table, key ^ le_u32(startup, off + 12) ^ 0x4D648371),
        "Image_"@ + decimal_digits(i as nat) + ".dll"@,
    )
    &&& image.name_off == 0
}

/// Decoding undoes the encoding of image records: when record `i` holds its type count and
/// name index, each XORed with the record's key and the field's constants, where the key of
/// record `i` is `((302843651 * ((57468 * i) XOR 0x7538159E)) XOR 0x6032C9D3) + 784007301`
/// modulo 2^32, the decoded image has that type count, and that name when it is not empty.
pub proof fn lemma_image_decodes_encoded(
    image: ImageDef,
    startup: Seq<u8>,
    base: int,
    body: Seq<u8>,
    table: nat,
    i: u32,
    type_count: u32,
    name_index: u32,
)
    requires
        is_image_record_at(image, startup, base, body, table, i as int),
        ({
            let key: u32 = (302_843_651u32.wrapping_mul(57_468u32.wrapping_mul(i) ^ 0x7538_159Eu32)
                ^ 0x6032_C9D3u32).wrapping_add(784_007_301u32);
            let off = base + 40 * i;
            &&& le_u32(startup, off + 4) == type_count ^ key ^ 0x7FDC_8C8Fu32 ^ 0x1324_FE97u32
            &&& le_u32(startup, off + 12) == name_index ^ key ^ 0x4D64_8371u32
        }),
    ensures
        image.type_count == type_count,
        image.name@ == name_or(
            decrypted_string(body, table, name_index),
            "Image_"@ + decimal_digits(i as nat) + ".dll"@,
        ),
{
    let key = image_key(i);
    assert(key ^ (type_count ^ key ^ 0x7FDC_8C8Fu32 ^ 0x1324_FE97u32) ^ 0x7FDC_8C8Fu32 ^ 0x1324_FE97u32 == type_count)
        by (bit_vector);
    assert(key ^ (name_index ^ key ^ 0x4D64_8371u32) ^ 0x4D64_8371u32 == name_index) by (bit_vector);
}

/// Whether `image` is image record `i` of `startup`, decoded with the names of `body` and `table`.
pub open spec fn is_image_record(
    image: ImageDef,
    startup: Seq<u8>,
    mhy: MhyHeader,
    body: Seq<u8>,
    table: nat,
    i: int,
) -> bool {
    is_image_record_at(image, startup, mhy.image_off() as int, body, table, i)
}

/// How many of `count` image records at `base` lie in `startup`: they stop at the first that
/// does not.
pub open spec fn image_run(startup_len: nat, base: int, count: nat) -> nat {
    if base > startup_len {
        0
    } else {
        let fitting = ((startup_len - base) / 40) as nat;
        if fitting < count {
            fitting
        } else {
            count
        }
    }
}

/// Decodes the image records of the table of `count` records at `base_off` of `startup`,
/// up to the first that does not lie in it.
pub fn decrypt_images_at(startup_meta: &[u8], base_off: usize, count: usize, decryptor: &StringDecryptor) -> (r: Vec<ImageDef>)
    ensures
        r@.len() == image_run(startup_meta@.len(), base_off as int, count as nat),
        forall|i: int| 0 <= i < r@.len() ==> image_record_fits(startup_meta@, base_off as int, i),
        forall|i: int|
            0 <= i < r@.len() ==> is_image_record_at(
                #[trigger] r@[i],
                startup_meta@,
                base_off as int,
                decryptor.body(),
                decryptor.table(),
                i,
            ),
{
    let mut images: Vec<ImageDef> = Vec::new();
    let mut i: usize = 0;
    while i < count
        invariant
            i <= count,
            images@.len() == i,
            forall|j: int| 0 <= j < i ==> image_record_fits(startup_meta@, base_off as int, j),
            forall|j: int|
                0 <= j < i ==> is_image_record_at(
                    #[trigger] images@[j],
                    startup_meta@,
                    base_off as int,
                    decryptor.body(),
                    decryptor.table(),
                    j,
                ),
            i <= image_run(startup_meta@.len(), base_off as int, count as nat),
        ensures
            i == image_run(startup_meta@.len(), base_off as int, count as nat),
        decreases count - i,
    {
        let key = (302843651u32.wrapping_mul((57468u32.wrapping_mul(i as u32)) ^ 0x7538159E)
            ^ 0x6032C9D3).wrapping_add(784007301);
        if base_off > startup_meta.len() || (startup_meta.len() - base_off) / 40 <= i {
            break;
        }
        let off = base_off + i * 40;
        let raw_1 = read_u32_at(startup_meta, off + 4);
        let raw_3 = read_u32_at(startup_meta, off + 12);
        let name_idx = key ^ raw_3 ^ 0x4D648371;
        let t_cnt = key ^ raw_1 ^ 0x7FDC8C8F ^ 0x1324FE97;
        let mut name = decryptor.decrypt_string(name_idx);
        if name.as_str().is_empty() {
            name = numbered_name("Image_", i, ".dll");
        }
        images.push(ImageDef { name, type_count: t_cnt, name_off: 0 });
        i = i + 1;
    }
    images
}

/// Decodes the image records of `startup-metadata.dat` that the header locates.
pub fn decrypt_images(startup_meta: &[u8], mhy: &MhyHeader, decryptor: &StringDecryptor) -> (r: Vec<
    ImageDef,
>)
    ensures
        r@.len() <= mhy.image_count(),
        r@.len() == image_run(startup_meta@.len(), mhy.image_off() as int, mhy.image_count() as nat),
        forall|i: int| 0 <= i < r@.len() ==> image_record_fits(startup_meta@, mhy.image_off() as int, i),
        r@.len() == mhy.image_count() || !image_record_fits(
            startup_meta@,
            mhy.image_off() as int,
            r@.len() as int,
        ),
        forall|i: int|
            0 <= i < r@.len() ==> is_image_record(
                #[trigger] r@[i],
                startup_meta@,
                *mhy,
                decryptor.body(),
                decryptor.table(),
                i,
            ),
{
    let images = decrypt_images_at(startup_meta, mhy.image_off(), mhy.image_count(), decryptor);
    assert forall|i: int| 0 <= i < images@.len() implies is_image_record(
        #[trigger] images@[i],
        startup_meta@,
        *mhy,
        decryptor.body(),
        decryptor.table(),
        i,
    ) by {
        assert(is_image_record_at(images@[i], startup_meta@, mhy.image_off() as int, decryptor.body(), decryptor.table(), i));
    }
    images
}

} // verus!
