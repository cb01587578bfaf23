//! Size classes: 66 bucketed object sizes between 16 bytes and 32 KiB, chosen
//! so that a span of whole pages wastes less than an eighth of its bytes.

use vstd::prelude::*;

verus! {

/// Bytes in a page.
pub const PAGE_SIZE: usize = 8192;

/// Bytes in an arena.
pub const ARENA_SIZE: usize = 0x400_0000;

/// The number of size classes, class 0 included, which stands for no class.
pub const NUM_SIZE_CLASSES: usize = 66;

/// The largest size that has a class.
pub const MAX_SMALL_OBJ_SIZE: usize = 32768;

/// The number of buckets of 8 bytes that cover the sizes below 1 KiB.
pub const NUM_SMALL_BUCKETS: usize = 128;

/// The number of buckets of 128 bytes that cover the sizes from 1 KiB to 32 KiB.
pub const NUM_MEDIUM_BUCKETS: usize = 249;

/// The number of buckets in all.
pub const TOTAL_BUCKETS: usize = 377;

/// The object size of each class.
pub const CLASS_TO_SIZE: [u64; 66] = [
    0, 16, 32, 48, 64, 80, 96, 112, 128, 144, 160, 176,
    192, 208, 224, 240, 256, 288, 320, 352, 384, 416, 448, 480,
    512, 576, 640, 704, 768, 896, 1024, 1152, 1280, 1408, 1536, 1792,
    2048, 2304, 2688, 3072, 3200, 3456, 4096, 4864, 5376, 6144, 6528, 6784,
    6912, 8192, 9472, 9728, 10240, 10880, 12288, 13568, 14336, 16384, 18432, 19072,
    20480, 21760, 24576, 27264, 28672, 32768,
];

/// The class of each bucket: sizes up to 1 KiB fall into buckets of 8 bytes,
/// larger ones into buckets of 128 bytes.
pub const SIZE_TO_CLASS: [u64; 377] = [
    0, 1, 1, 2, 2, 3, 3, 4, 4, 5, 5, 6, 6, 7, 7, 8,
    8, 9, 9, 10, 10, 11, 11, 12, 12, 13, 13, 14, 14, 15, 15, 16,
    16, 17, 17, 17, 17, 18, 18, 18, 18, 19, 19, 19, 19, 20, 20, 20,
    20, 21, 21, 21, 21, 22, 22, 22, 22, 23, 23, 23, 23, 24, 24, 24,
    24, 25, 25, 25, 25, 25, 25, 25, 25, 26, 26, 26, 26, 26, 26, 26,
    26, 27, 27, 27, 27, 27, 27, 27, 27, 28, 28, 28, 28, 28, 28, 28,
    28, 29, 29, 29, 29, 29, 29, 29, 29, 29, 29, 29, 29, 29, 29, 29,
    29, 30, 30, 30, 30, 30, 30, 30, 30, 30, 30, 30, 30, 30, 30, 30,
    30, 31, 32, 33, 34, 35, 35, 36, 36, 37, 37, 38, 38, 38, 39, 39,
    39, 40, 41, 41, 42, 42, 42, 42, 42, 43, 43, 43, 43, 43, 43, 44,
    44, 44, 44, 45, 45, 45, 45, 45, 45, 46, 46, 46, 47, 47, 48, 49,
    49, 49, 49, 49, 49, 49, 49, 49, 49, 50, 50, 50, 50, 50, 50, 50,
    50, 50, 50, 51, 51, 52, 52, 52, 52, 53, 53, 53, 53, 53, 54, 54,
    54, 54, 54, 54, 54, 54, 54, 54, 54, 55, 55, 55, 55, 55, 55, 55,
    55, 55, 55, 56, 56, 56, 56, 56, 56, 57, 57, 57, 57, 57, 57, 57,
    57, 57, 57, 57, 57, 57, 57, 57, 57, 58, 58, 58, 58, 58, 58, 58,
    58, 58, 58, 58, 58, 58, 58, 58, 58, 59, 59, 59, 59, 59, 60, 60,
    60, 60, 60, 60, 60, 60, 60, 60, 60, 61, 61, 61, 61, 61, 61, 61,
    61, 61, 61, 62, 62, 62, 62, 62, 62, 62, 62, 62, 62, 62, 62, 62,
    62, 62, 62, 62, 62, 62, 62, 62, 62, 63, 63, 63, 63, 63, 63, 63,
    63, 63, 63, 63, 63, 63, 63, 63, 63, 63, 63, 63, 63, 63, 64, 64,
    64, 64, 64, 64, 64, 64, 64, 64, 64, 65, 65, 65, 65, 65, 65, 65,
    65, 65, 65, 65, 65, 65, 65, 65, 65, 65, 65, 65, 65, 65, 65, 65,
    65, 65, 65, 65, 65, 65, 65, 65, 65,
];

/// The number of pages in a span of each class.
pub const CLASS_TO_ALLOC_PAGES: [usize; 66] = [
    0, 1, 1, 1, 1, 1, 1, 1, 1, 1, 1, 1,
    1, 1, 1, 1, 1, 1, 1, 1, 1, 1, 1, 1,
    1, 1, 1, 1, 1, 1, 1, 1, 1, 2, 1, 2,
    1, 2, 1, 2, 2, 3, 1, 2, 2, 3, 4, 5,
    6, 1, 5, 4, 4, 3, 3, 5, 7, 2, 5, 5,
    5, 3, 3, 7, 7, 4,
];

/// The object size of class `c`.
pub open spec fn class_size(c: int) -> int {
    CLASS_TO_SIZE[c] as int
}

/// The largest size that falls into bucket `b`.
pub open spec fn bucket_size(b: int) -> int {
    if b < NUM_SMALL_BUCKETS {
        8 * b
    } else {
        (b - NUM_SMALL_BUCKETS) * 128 + 1024
    }
}

/// The bucket into which `size` falls.
pub open spec fn bucket_of(size: int) -> int {
    if size <= 1024 {
        (size + 7) / 8
    } else {
        NUM_SMALL_BUCKETS + (size - 1024 + 127) / 128
    }
}

/// `c` is the class of `size`: the first class whose objects are large enough.
pub open spec fn is_size_class(size: int, c: int) -> bool {
    &&& 0 <= c < NUM_SIZE_CLASSES
    &&& class_size(c) >= size
    &&& c == 0 || class_size(c - 1) < size
}

/// The bytes that a span of `pages` pages wastes on objects of `size` bytes.
pub open spec fn span_waste(size: int, pages: int) -> int {
    (pages * PAGE_SIZE) % size
}

/// A span of `pages` pages wastes less than an eighth on objects of `size` bytes.
pub open spec fn low_waste(size: int, pages: int) -> bool {
    8 * span_waste(size, pages) < pages * PAGE_SIZE
}

/// The class sizes grow strictly, and are multiples of 16 up to 1 KiB and of
/// 128 from there on.
pub proof fn lemma_class_sizes(c: int)
    requires
        0 <= c < NUM_SIZE_CLASSES,
    ensures
        c > 0 ==> class_size(c - 1) < class_size(c),
        c > 0 ==> 16 <= class_size(c) <= MAX_SMALL_OBJ_SIZE,
        class_size(c) <= 1024 ==> class_size(c) % 16 == 0,
        class_size(c) >= 1024 ==> class_size(c) % 128 == 0,
        class_size(0) == 0,
{
}

/// Each bucket holds the class of its largest size.
pub proof fn lemma_bucket_class(b: int)
    requires
        0 <= b < TOTAL_BUCKETS,
    ensures
        is_size_class(bucket_size(b), SIZE_TO_CLASS[b] as int),
{
}

/// Each class has a span that wastes less than an eighth.
pub proof fn lemma_class_pages(c: int)
    requires
        1 <= c < NUM_SIZE_CLASSES,
    ensures
        1 <= CLASS_TO_ALLOC_PAGES[c] <= 7,
        low_waste(class_size(c), CLASS_TO_ALLOC_PAGES[c] as int),
        (CLASS_TO_ALLOC_PAGES[c] * PAGE_SIZE) / class_size(c) <= 512,
        (CLASS_TO_ALLOC_PAGES[c] * PAGE_SIZE) / class_size(c) >= 1,
{
    let s = class_size(c);
    let p = CLASS_TO_ALLOC_PAGES[c] as int;
    if c == 1 {
        assert(s == 16 && p == 1);
        assert((8192int) % 16 == 0);
        assert((8192int) / 16 == 512);
    } else if c == 2 {
        assert(s == 32 && p == 1);
        assert((8192int) % 32 == 0);
        assert((8192int) / 32 == 256);
    } else if c == 3 {
        assert(s == 48 && p == 1);
        assert((8192int) % 48 == 32);
        assert((8192int) / 48 == 170);
    } else if c == 4 {
        assert(s == 64 && p == 1);
        assert((8192int) % 64 == 0);
        assert((8192int) / 64 == 128);
    } else if c == 5 {
        assert(s == 80 && p == 1);
        assert((8192int) % 80 == 32);
        assert((8192int) / 80 == 102);
    } else if c == 6 {
        assert(s == 96 && p == 1);
        assert((8192int) % 96 == 32);
        assert((8192int) / 96 == 85);
    } else if c == 7 {
        assert(s == 112 && p == 1);
        assert((8192int) % 112 == 16);
        assert((8192int) / 112 == 73);
    } else if c == 8 {
        assert(s == 128 && p == 1);
        assert((8192int) % 128 == 0);
        assert((8192int) / 128 == 64);
    } else if c == 9 {
        assert(s == 144 && p == 1);
        assert((8192int) % 144 == 128);
        assert((8192int) / 144 == 56);
    } else if c == 10 {
        assert(s == 160 && p == 1);
        assert((8192int) % 160 == 32);
        assert((8192int) / 160 == 51);
    } else if c == 11 {
        assert(s == 176 && p == 1);
        assert((8192int) % 176 == 96);
        assert((8192int) / 176 == 46);
    } else if c == 12 {
        assert(s == 192 && p == 1);
        assert((8192int) % 192 == 128);
        assert((8192int) / 192 == 42);
    } else if c == 13 {
        assert(s == 208 && p == 1);
        assert((8192int) % 208 == 80);
        assert((8192int) / 208 == 39);
    } else if c == 14 {
        assert(s == 224 && p == 1);
        assert((8192int) % 224 == 128);
        assert((8192int) / 224 == 36);
    } else if c == 15 {
        assert(s == 240 && p == 1);
        assert((8192int) % 240 == 32);
        assert((8192int) / 240 == 34);
    } else if c == 16 {
        assert(s == 256 && p == 1);
        assert((8192int) % 256 == 0);
        assert((8192int) / 256 == 32);
    } else if c == 17 {
        assert(s == 288 && p == 1);
        assert((8192int) % 288 == 128);
        assert((8192int) / 288 == 28);
    } else if c == 18 {
        assert(s == 320 && p == 1);
        assert((8192int) % 320 == 192);
        assert((8192int) / 320 == 25);
    } else if c == 19 {
        assert(s == 352 && p == 1);
        assert((8192int) % 352 == 96);
        assert((8192int) / 352 == 23);
    } else if c == 20 {
        assert(s == 384 && p == 1);
        assert((8192int) % 384 == 128);
        assert((8192int) / 384 == 21);
    } else if c == 21 {
        assert(s == 416 && p == 1);
        assert((8192int) % 416 == 288);
        assert((8192int) / 416 == 19);
    } else if c == 22 {
        assert(s == 448 && p == 1);
        assert((8192int) % 448 == 128);
        assert((8192int) / 448 == 18);
    } else if c == 23 {
        assert(s == 480 && p == 1);
        assert((8192int) % 480 == 32);
        assert((8192int) / 480 == 17);
    } else if c == 24 {
        assert(s == 512 && p == 1);
        assert((8192int) % 512 == 0);
        assert((8192int) / 512 == 16);
    } else if c == 25 {
        assert(s == 576 && p == 1);
        assert((8192int) % 576 == 128);
        assert((8192int) / 576 == 14);
    } else if c == 26 {
        assert(s == 640 && p == 1);
        assert((8192int) % 640 == 512);
        assert((8192int) / 640 == 12);
    } else if c == 27 {
        assert(s == 704 && p == 1);
        assert((8192int) % 704 == 448);
        assert((8192int) / 704 == 11);
    } else if c == 28 {
        assert(s == 768 && p == 1);
        assert((8192int) % 768 == 512);
        assert((8192int) / 768 == 10);
    } else if c == 29 {
        assert(s == 896 && p == 1);
        assert((8192int) % 896 == 128);
        assert((8192int) / 896 == 9);
    } else if c == 30 {
        assert(s == 1024 && p == 1);
        assert((8192int) % 1024 == 0);
        assert((8192int) / 1024 == 8);
    } else if c == 31 {
        assert(s == 1152 && p == 1);
        assert((8192int) % 1152 == 128);
        assert((8192int) / 1152 == 7);
    } else if c == 32 {
        assert(s == 1280 && p == 1);
        assert((8192int) % 1280 == 512);
        assert((8192int) / 1280 == 6);
    } else if c == 33 {
        assert(s == 1408 && p == 2);
        assert((16384int) % 1408 == 896);
        assert((16384int) / 1408 == 11);
    } else if c == 34 {
        assert(s == 1536 && p == 1);
        assert((8192int) % 1536 == 512);
        assert((8192int) / 1536 == 5);
    } else if c == 35 {
        assert(s == 1792 && p == 2);
        assert((16384int) % 1792 == 256);
        assert((16384int) / 1792 == 9);
    } else if c == 36 {
        assert(s == 2048 && p == 1);
        assert((8192int) % 2048 == 0);
        assert((8192int) / 2048 == 4);
    } else if c == 37 {
        assert(s == 2304 && p == 2);
        assert((16384int) % 2304 == 256);
        assert((16384int) / 2304 == 7);
    } else if c == 38 {
        assert(s == 2688 && p == 1);
        assert((8192int) % 2688 == 128);
        assert((8192int) / 2688 == 3);
    } else if c == 39 {
        assert(s == 3072 && p == 2);
        assert((16384int) % 3072 == 1024);
        assert((16384int) / 3072 == 5);
    } else if c == 40 {
        assert(s == 3200 && p == 2);
        assert((16384int) % 3200 == 384);
        assert((16384int) / 3200 == 5);
    } else if c == 41 {
        assert(s == 3456 && p == 3);
        assert((24576int) % 3456 == 384);
        assert((24576int) / 3456 == 7);
    } else if c == 42 {
        assert(s == 4096 && p == 1);
        assert((8192int) % 4096 == 0);
        assert((8192int) / 4096 == 2);
    } else if c == 43 {
        assert(s == 4864 && p == 2);
        assert((16384int) % 4864 == 1792);
        assert((16384int) / 4864 == 3);
    } else if c == 44 {
        assert(s == 5376 && p == 2);
        assert((16384int) % 5376 == 256);
        assert((16384int) / 5376 == 3);
    } else if c == 45 {
        assert(s == 6144 && p == 3);
        assert((24576int) % 6144 == 0);
        assert((24576int) / 6144 == 4);
    } else if c == 46 {
        assert(s == 6528 && p == 4);
        assert((32768int) % 6528 == 128);
        assert((32768int) / 6528 == 5);
    } else if c == 47 {
        assert(s == 6784 && p == 5);
        assert((40960int) % 6784 == 256);
        assert((40960int) / 6784 == 6);
    } else if c == 48 {
        assert(s == 6912 && p == 6);
        assert((49152int) % 6912 == 768);
        assert((49152int) / 6912 == 7);
    } else if c == 49 {
        assert(s == 8192 && p == 1);
        assert((8192int) % 8192 == 0);
        assert((8192int) / 8192 == 1);
    } else if c == 50 {
        assert(s == 9472 && p == 5);
        assert((40960int) % 9472 == 3072);
        assert((40960int) / 9472 == 4);
    } else if c == 51 {
        assert(s == 9728 && p == 4);
        assert((32768int) % 9728 == 3584);
        assert((32768int) / 9728 == 3);
    } else if c == 52 {
        assert(s == 10240 && p == 4);
        assert((32768int) % 10240 == 2048);
        assert((32768int) / 10240 == 3);
    } else if c == 53 {
        assert(s == 10880 && p == 3);
        assert((24576int) % 10880 == 2816);
        assert((24576int) / 10880 == 2);
    } else if c == 54 {
        assert(s == 12288 && p == 3);
        assert((24576int) % 12288 == 0);
        assert((24576int) / 12288 == 2);
    } else if c == 55 {
        assert(s == 13568 && p == 5);
        assert((40960int) % 13568 == 256);
        assert((40960int) / 13568 == 3);
    } else if c == 56 {
        assert(s == 14336 && p == 7);
        assert((57344int) % 14336 == 0);
        assert((57344int) / 14336 == 4);
    } else if c == 57 {
        assert(s == 16384 && p == 2);
        assert((16384int) % 16384 == 0);
        assert((16384int) / 16384 == 1);
    } else if c == 58 {
        assert(s == 18432 && p == 5);
        assert((40960int) % 18432 == 4096);
        assert((40960int) / 18432 == 2);
    } else if c == 59 {
        assert(s == 19072 && p == 5);
        assert((40960int) % 19072 == 2816);
        assert((40960int) / 19072 == 2);
    } else if c == 60 {
        assert(s == 20480 && p == 5);
        assert((40960int) % 20480 == 0);
        assert((40960int) / 20480 == 2);
    } else if c == 61 {
        assert(s == 21760 && p == 3);
        assert((24576int) % 21760 == 2816);
        assert((24576int) / 21760 == 1);
    } else if c == 62 {
        assert(s == 24576 && p == 3);
        assert((24576int) % 24576 == 0);
        assert((24576int) / 24576 == 1);
    } else if c == 63 {
        assert(s == 27264 && p == 7);
        assert((57344int) % 27264 == 2816);
        assert((57344int) / 27264 == 2);
    } else if c == 64 {
        assert(s == 28672 && p == 7);
        assert((57344int) % 28672 == 0);
        assert((57344int) / 28672 == 2);
    } else if c == 65 {
        assert(s == 32768 && p == 4);
        assert((32768int) % 32768 == 0);
        assert((32768int) / 32768 == 1);
    }
}

/// For the classes above a page: the number of objects whose pages make the
/// span of the class.
pub const CLASS_TO_SPAN_OBJECTS: [usize; 66] = [
    0, 0, 0, 0, 0, 0, 0, 0, 0, 0, 0, 0,
    0, 0, 0, 0, 0, 0, 0, 0, 0, 0, 0, 0,
    0, 0, 0, 0, 0, 0, 0, 0, 0, 0, 0, 0,
    0, 0, 0, 0, 0, 0, 0, 0, 0, 0, 0, 0,
    0, 0, 4, 3, 3, 2, 2, 3, 4, 1, 2, 2,
    2, 1, 1, 2, 2, 1,
];

/// The pages that hold `objects` objects of `size` bytes.
pub open spec fn pages_for(size: int, objects: int) -> int {
    (size * objects + PAGE_SIZE - 1) / (PAGE_SIZE as int)
}

/// No span shorter than the one of the table wastes less than an eighth.
pub proof fn lemma_small_class_pages_least(c: int, q: int)
    requires
        1 <= c < NUM_SIZE_CLASSES,
        class_size(c) <= PAGE_SIZE,
        1 <= q < CLASS_TO_ALLOC_PAGES[c],
    ensures
        !low_waste(class_size(c), q),
{
    if c == 33 {
        assert(class_size(c) == 1408);
        assert((8192int) % 1408 == 1152);
    } else if c == 35 {
        assert(class_size(c) == 1792);
        assert((8192int) % 1792 == 1024);
    } else if c == 37 {
        assert(class_size(c) == 2304);
        assert((8192int) % 2304 == 1280);
    } else if c == 39 {
        assert(class_size(c) == 3072);
        assert((8192int) % 3072 == 2048);
    } else if c == 40 {
        assert(class_size(c) == 3200);
        assert((8192int) % 3200 == 1792);
    } else if c == 41 {
        assert(class_size(c) == 3456);
        assert((8192int) % 3456 == 1280);
        assert((16384int) % 3456 == 2560);
    } else if c == 43 {
        assert(class_size(c) == 4864);
        assert((8192int) % 4864 == 3328);
    } else if c == 44 {
        assert(class_size(c) == 5376);
        assert((8192int) % 5376 == 2816);
    } else if c == 45 {
        assert(class_size(c) == 6144);
        assert((8192int) % 6144 == 2048);
        assert((16384int) % 6144 == 4096);
    } else if c == 46 {
        assert(class_size(c) == 6528);
        assert((8192int) % 6528 == 1664);
        assert((16384int) % 6528 == 3328);
        assert((24576int) % 6528 == 4992);
    } else if c == 47 {
        assert(class_size(c) == 6784);
        assert((8192int) % 6784 == 1408);
        assert((16384int) % 6784 == 2816);
        assert((24576int) % 6784 == 4224);
        assert((32768int) % 6784 == 5632);
    } else if c == 48 {
        assert(class_size(c) == 6912);
        assert((8192int) % 6912 == 1280);
        assert((16384int) % 6912 == 2560);
        assert((24576int) % 6912 == 3840);
        assert((32768int) % 6912 == 5120);
        assert((40960int) % 6912 == 6400);
    }
}

/// For a class above a page, the span of the table holds the smallest number
/// of objects whose pages waste less than an eighth.
pub proof fn lemma_large_class_pages(c: int, k: int)
    requires
        1 <= c < NUM_SIZE_CLASSES,
        class_size(c) > PAGE_SIZE,
        1 <= k <= CLASS_TO_SPAN_OBJECTS[c],
    ensures
        1 <= CLASS_TO_SPAN_OBJECTS[c] <= 4,
        1 <= pages_for(class_size(c), k) <= 16,
        k < CLASS_TO_SPAN_OBJECTS[c] ==> !low_waste(class_size(c), pages_for(class_size(c), k)),
        k == CLASS_TO_SPAN_OBJECTS[c] ==> pages_for(class_size(c), k) == CLASS_TO_ALLOC_PAGES[c]
            && low_waste(class_size(c), pages_for(class_size(c), k)),
{
    if c == 50 && k == 1 {
        assert(class_size(c) == 9472);
        assert(class_size(c) * k == 9472) by (nonlinear_arith)
            requires
                class_size(c) == 9472,
                k == 1,
        ;
        assert((17663int) / 8192 == 2);
        assert(pages_for(class_size(c), k) == 2);
        assert((16384int) % 9472 == 6912);
    } else if c == 50 && k == 2 {
        assert(class_size(c) == 9472);
        assert(class_size(c) * k == 18944) by (nonlinear_arith)
            requires
                class_size(c) == 9472,
                k == 2,
        ;
        assert((27135int) / 8192 == 3);
        assert(pages_for(class_size(c), k) == 3);
        assert((24576int) % 9472 == 5632);
    } else if c == 50 && k == 3 {
        assert(class_size(c) == 9472);
        assert(class_size(c) * k == 28416) by (nonlinear_arith)
            requires
                class_size(c) == 9472,
                k == 3,
        ;
        assert((36607int) / 8192 == 4);
        assert(pages_for(class_size(c), k) == 4);
        assert((32768int) % 9472 == 4352);
    } else if c == 50 && k == 4 {
        assert(class_size(c) == 9472);
        assert(class_size(c) * k == 37888) by (nonlinear_arith)
            requires
                class_size(c) == 9472,
                k == 4,
        ;
        assert((46079int) / 8192 == 5);
        assert(pages_for(class_size(c), k) == 5);
        assert((40960int) % 9472 == 3072);
    } else if c == 51 && k == 1 {
        assert(class_size(c) == 9728);
        assert(class_size(c) * k == 9728) by (nonlinear_arith)
            requires
                class_size(c) == 9728,
                k == 1,
        ;
        assert((17919int) / 8192 == 2);
        assert(pages_for(class_size(c), k) == 2);
        assert((16384int) % 9728 == 6656);
    } else if c == 51 && k == 2 {
        assert(class_size(c) == 9728);
        assert(class_size(c) * k == 19456) by (nonlinear_arith)
            requires
                class_size(c) == 9728,
                k == 2,
        ;
        assert((27647int) / 8192 == 3);
        assert(pages_for(class_size(c), k) == 3);
        assert((24576int) % 9728 == 5120);
    } else if c == 51 && k == 3 {
        assert(class_size(c) == 9728);
        assert(class_size(c) * k == 29184) by (nonlinear_arith)
            requires
                class_size(c) == 9728,
                k == 3,
        ;
        assert((37375int) / 8192 == 4);
        assert(pages_for(class_size(c), k) == 4);
        assert((32768int) % 9728 == 3584);
    } else if c == 52 && k == 1 {
        assert(class_size(c) == 10240);
        assert(class_size(c) * k == 10240) by (nonlinear_arith)
            requires
                class_size(c) == 10240,
                k == 1,
        ;
        assert((18431int) / 8192 == 2);
        assert(pages_for(class_size(c), k) == 2);
        assert((16384int) % 10240 == 6144);
    } else if c == 52 && k == 2 {
        assert(class_size(c) == 10240);
        assert(class_size(c) * k == 20480) by (nonlinear_arith)
            requires
                class_size(c) == 10240,
                k == 2,
        ;
        assert((28671int) / 8192 == 3);
        assert(pages_for(class_size(c), k) == 3);
        assert((24576int) % 10240 == 4096);
    } else if c == 52 && k == 3 {
        assert(class_size(c) == 10240);
        assert(class_size(c) * k == 30720) by (nonlinear_arith)
            requires
                class_size(c) == 10240,
                k == 3,
        ;
        assert((38911int) / 8192 == 4);
        assert(pages_for(class_size(c), k) == 4);
        assert((32768int) % 10240 == 2048);
    } else if c == 53 && k == 1 {
        assert(class_size(c) == 10880);
        assert(class_size(c) * k == 10880) by (nonlinear_arith)
            requires
                class_size(c) == 10880,
                k == 1,
        ;
        assert((19071int) / 8192 == 2);
        assert(pages_for(class_size(c), k) == 2);
        assert((16384int) % 10880 == 5504);
    } else if c == 53 && k == 2 {
        assert(class_size(c) == 10880);
        assert(class_size(c) * k == 21760) by (nonlinear_arith)
            requires
                class_size(c) == 10880,
                k == 2,
        ;
        assert((29951int) / 8192 == 3);
        assert(pages_for(class_size(c), k) == 3);
        assert((24576int) % 10880 == 2816);
    } else if c == 54 && k == 1 {
        assert(class_size(c) == 12288);
        assert(class_size(c) * k == 12288) by (nonlinear_arith)
            requires
                class_size(c) == 12288,
                k == 1,
        ;
        assert((20479int) / 8192 == 2);
        assert(pages_for(class_size(c), k) == 2);
        assert((16384int) % 12288 == 4096);
    } else if c == 54 && k == 2 {
        assert(class_size(c) == 12288);
        assert(class_size(c) * k == 24576) by (nonlinear_arith)
            requires
                class_size(c) == 12288,
                k == 2,
        ;
        assert((32767int) / 8192 == 3);
        assert(pages_for(class_size(c), k) == 3);
        assert((24576int) % 12288 == 0);
    } else if c == 55 && k == 1 {
        assert(class_size(c) == 13568);
        assert(class_size(c) * k == 13568) by (nonlinear_arith)
            requires
                class_size(c) == 13568,
                k == 1,
        ;
        assert((21759int) / 8192 == 2);
        assert(pages_for(class_size(c), k) == 2);
        assert((16384int) % 13568 == 2816);
    } else if c == 55 && k == 2 {
        assert(class_size(c) == 13568);
        assert(class_size(c) * k == 27136) by (nonlinear_arith)
            requires
                class_size(c) == 13568,
                k == 2,
        ;
        assert((35327int) / 8192 == 4);
        assert(pages_for(class_size(c), k) == 4);
        assert((32768int) % 13568 == 5632);
    } else if c == 55 && k == 3 {
        assert(class_size(c) == 13568);
        assert(class_size(c) * k == 40704) by (nonlinear_arith)
            requires
                class_size(c) == 13568,
                k == 3,
        ;
        assert((48895int) / 8192 == 5);
        assert(pages_for(class_size(c), k) == 5);
        assert((40960int) % 13568 == 256);
    } else if c == 56 && k == 1 {
        assert(class_size(c) == 14336);
        assert(class_size(c) * k == 14336) by (nonlinear_arith)
            requires
                class_size(c) == 14336,
                k == 1,
        ;
        assert((22527int) / 8192 == 2);
        assert(pages_for(class_size(c), k) == 2);
        assert((16384int) % 14336 == 2048);
    } else if c == 56 && k == 2 {
        assert(class_size(c) == 14336);
        assert(class_size(c) * k == 28672) by (nonlinear_arith)
            requires
                class_size(c) == 14336,
                k == 2,
        ;
        assert((36863int) / 8192 == 4);
        assert(pages_for(class_size(c), k) == 4);
        assert((32768int) % 14336 == 4096);
    } else if c == 56 && k == 3 {
        assert(class_size(c) == 14336);
        assert(class_size(c) * k == 43008) by (nonlinear_arith)
            requires
                class_size(c) == 14336,
                k == 3,
        ;
        assert((51199int) / 8192 == 6);
        assert(pages_for(class_size(c), k) == 6);
        assert((49152int) % 14336 == 6144);
    } else if c == 56 && k == 4 {
        assert(class_size(c) == 14336);
        assert(class_size(c) * k == 57344) by (nonlinear_arith)
            requires
                class_size(c) == 14336,
                k == 4,
        ;
        assert((65535int) / 8192 == 7);
        assert(pages_for(class_size(c), k) == 7);
        assert((57344int) % 14336 == 0);
    } else if c == 57 && k == 1 {
        assert(class_size(c) == 16384);
        assert(class_size(c) * k == 16384) by (nonlinear_arith)
            requires
                class_size(c) == 16384,
                k == 1,
        ;
        assert((24575int) / 8192 == 2);
        assert(pages_for(class_size(c), k) == 2);
        assert((16384int) % 16384 == 0);
    } else if c == 58 && k == 1 {
        assert(class_size(c) == 18432);
        assert(class_size(c) * k == 18432) by (nonlinear_arith)
            requires
                class_size(c) == 18432,
                k == 1,
        ;
        assert((26623int) / 8192 == 3);
        assert(pages_for(class_size(c), k) == 3);
        assert((24576int) % 18432 == 6144);
    } else if c == 58 && k == 2 {
        assert(class_size(c) == 18432);
        assert(class_size(c) * k == 36864) by (nonlinear_arith)
            requires
                class_size(c) == 18432,
                k == 2,
        ;
        assert((45055int) / 8192 == 5);
        assert(pages_for(class_size(c), k) == 5);
        assert((40960int) % 18432 == 4096);
    } else if c == 59 && k == 1 {
        assert(class_size(c) == 19072);
        assert(class_size(c) * k == 19072) by (nonlinear_arith)
            requires
                class_size(c) == 19072,
                k == 1,
        ;
        assert((27263int) / 8192 == 3);
        assert(pages_for(class_size(c), k) == 3);
        assert((24576int) % 19072 == 5504);
    } else if c == 59 && k == 2 {
        assert(class_size(c) == 19072);
        assert(class_size(c) * k == 38144) by (nonlinear_arith)
            requires
                class_size(c) == 19072,
                k == 2,
        ;
        assert((46335int) / 8192 == 5);
        assert(pages_for(class_size(c), k) == 5);
        assert((40960int) % 19072 == 2816);
    } else if c == 60 && k == 1 {
        assert(class_size(c) == 20480);
        assert(class_size(c) * k == 20480) by (nonlinear_arith)
            requires
                class_size(c) == 20480,
                k == 1,
        ;
        assert((28671int) / 8192 == 3);
        assert(pages_for(class_size(c), k) == 3);
        assert((24576int) % 20480 == 4096);
    } else if c == 60 && k == 2 {
        assert(class_size(c) == 20480);
        assert(class_size(c) * k == 40960) by (nonlinear_arith)
            requires
                class_size(c) == 20480,
                k == 2,
        ;
        assert((49151int) / 8192 == 5);
        assert(pages_for(class_size(c), k) == 5);
        assert((40960int) % 20480 == 0);
    } else if c == 61 && k == 1 {
        assert(class_size(c) == 21760);
        assert(class_size(c) * k == 21760) by (nonlinear_arith)
            requires
                class_size(c) == 21760,
                k == 1,
        ;
        assert((29951int) / 8192 == 3);
        assert(pages_for(class_size(c), k) == 3);
        assert((24576int) % 21760 == 2816);
    } else if c == 62 && k == 1 {
        assert(class_size(c) == 24576);
        assert(class_size(c) * k == 24576) by (nonlinear_arith)
            requires
                class_size(c) == 24576,
                k == 1,
        ;
        assert((32767int) / 8192 == 3);
        assert(pages_for(class_size(c), k) == 3);
        assert((24576int) % 24576 == 0);
    } else if c == 63 && k == 1 {
        assert(class_size(c) == 27264);
        assert(class_size(c) * k == 27264) by (nonlinear_arith)
            requires
                class_size(c) == 27264,
                k == 1,
        ;
        assert((35455int) / 8192 == 4);
        assert(pages_for(class_size(c), k) == 4);
        assert((32768int) % 27264 == 5504);
    } else if c == 63 && k == 2 {
        assert(class_size(c) == 27264);
        assert(class_size(c) * k == 54528) by (nonlinear_arith)
            requires
                class_size(c) == 27264,
                k == 2,
        ;
        assert((62719int) / 8192 == 7);
        assert(pages_for(class_size(c), k) == 7);
        assert((57344int) % 27264 == 2816);
    } else if c == 64 && k == 1 {
        assert(class_size(c) == 28672);
        assert(class_size(c) * k == 28672) by (nonlinear_arith)
            requires
                class_size(c) == 28672,
                k == 1,
        ;
        assert((36863int) / 8192 == 4);
        assert(pages_for(class_size(c), k) == 4);
        assert((32768int) % 28672 == 4096);
    } else if c == 64 && k == 2 {
        assert(class_size(c) == 28672);
        assert(class_size(c) * k == 57344) by (nonlinear_arith)
            requires
                class_size(c) == 28672,
                k == 2,
        ;
        assert((65535int) / 8192 == 7);
        assert(pages_for(class_size(c), k) == 7);
        assert((57344int) % 28672 == 0);
    } else if c == 65 && k == 1 {
        assert(class_size(c) == 32768);
        assert(class_size(c) * k == 32768) by (nonlinear_arith)
            requires
                class_size(c) == 32768,
                k == 1,
        ;
        assert((40959int) / 8192 == 4);
        assert(pages_for(class_size(c), k) == 4);
        assert((32768int) % 32768 == 0);
    }
}

/// Builds the table from bucket to class by walking the buckets and the
/// classes side by side: it is the table `SIZE_TO_CLASS`.
pub fn generate_size_to_class() -> (table: [u64; 377])
    ensures
        table@ == SIZE_TO_CLASS@,
{
    let mut table = [0u64; 377];
    let mut class_idx: usize = 0;
    let mut bucket: usize = 0;
    while bucket < TOTAL_BUCKETS
        invariant
            bucket <= TOTAL_BUCKETS,
            class_idx < NUM_SIZE_CLASSES,
            bucket > 0 ==> class_idx == SIZE_TO_CLASS[bucket - 1],
            bucket == 0 ==> class_idx == 0,
            forall|b: int| 0 <= b < bucket ==> table[b] == SIZE_TO_CLASS[b],
        decreases TOTAL_BUCKETS - bucket,
    {
        let size: u64 = if bucket < NUM_SMALL_BUCKETS {
            bucket as u64 * 8
        } else {
            (bucket - NUM_SMALL_BUCKETS) as u64 * 128 + 1024
        };
        proof {
            lemma_bucket_step(bucket as int);
        }
        if size > CLASS_TO_SIZE[class_idx] {
            class_idx += 1;
        }
        table[bucket] = class_idx as u64;
        bucket += 1;
    }
    assert(table@ =~= SIZE_TO_CLASS@);
    table
}

/// The class of a bucket is that of the bucket before it, or the next class
/// where the bucket outgrows it.
pub proof fn lemma_bucket_step(b: int)
    requires
        0 <= b < TOTAL_BUCKETS,
    ensures
        b == 0 ==> SIZE_TO_CLASS[b] == 0,
        b > 0 ==> SIZE_TO_CLASS[b - 1] < NUM_SIZE_CLASSES,
        b > 0 && bucket_size(b) > class_size(SIZE_TO_CLASS[b - 1] as int) ==> SIZE_TO_CLASS[b]
            == SIZE_TO_CLASS[b - 1] + 1,
        b > 0 && bucket_size(b) <= class_size(SIZE_TO_CLASS[b - 1] as int) ==> SIZE_TO_CLASS[b]
            == SIZE_TO_CLASS[b - 1],
        SIZE_TO_CLASS[b] < NUM_SIZE_CLASSES,
{
}

/// The class sizes grow with the class.
pub proof fn lemma_class_order(i: int, j: int)
    requires
        0 <= i < NUM_SIZE_CLASSES,
        0 <= j < NUM_SIZE_CLASSES,
    ensures
        i < j ==> class_size(i) < class_size(j),
    decreases j,
{
    if i < j {
        lemma_class_sizes(j);
        if i < j - 1 {
            lemma_class_order(i, j - 1);
        }
    }
}

/// Builds the table from class to span length: for each class the shortest
/// span that wastes less than an eighth of its bytes. It is the table
/// `CLASS_TO_ALLOC_PAGES`.
pub fn generate_class_to_alloc_pages() -> (table: [usize; 66])
    ensures
        table@ == CLASS_TO_ALLOC_PAGES@,
{
    let mut table = [0usize; 66];
    let mut class_idx: usize = 1;
    while class_idx < NUM_SIZE_CLASSES
        invariant
            1 <= class_idx <= NUM_SIZE_CLASSES,
            forall|c: int| 0 <= c < class_idx ==> table[c] == CLASS_TO_ALLOC_PAGES[c],
        decreases NUM_SIZE_CLASSES - class_idx,
    {
        let obj_size = CLASS_TO_SIZE[class_idx] as usize;
        proof {
            lemma_class_sizes(class_idx as int);
            lemma_class_pages(class_idx as int);
        }
        if obj_size <= PAGE_SIZE {
            let mut num_pages: usize = 1;
            loop
                invariant
                    1 <= class_idx < NUM_SIZE_CLASSES,
                    obj_size == class_size(class_idx as int),
                    16 <= obj_size <= PAGE_SIZE,
                    1 <= num_pages <= CLASS_TO_ALLOC_PAGES[class_idx as int] <= 7,
                    low_waste(obj_size as int, CLASS_TO_ALLOC_PAGES[class_idx as int] as int),
                ensures
                    num_pages == CLASS_TO_ALLOC_PAGES[class_idx as int],
                decreases CLASS_TO_ALLOC_PAGES[class_idx as int] - num_pages,
            {
                let waste = num_pages * PAGE_SIZE % obj_size;
                if 8 * waste < num_pages * PAGE_SIZE {
                    proof {
                        if num_pages < CLASS_TO_ALLOC_PAGES[class_idx as int] {
                            lemma_small_class_pages_least(class_idx as int, num_pages as int);
                        }
                    }
                    break ;
                }
                num_pages += 1;
            }
            table[class_idx] = num_pages;
        } else {
            let mut num_objects: usize = 1;
            proof {
                lemma_large_class_pages(class_idx as int, 1);
            }
            loop
                invariant
                    1 <= class_idx < NUM_SIZE_CLASSES,
                    obj_size == class_size(class_idx as int),
                    PAGE_SIZE < obj_size <= MAX_SMALL_OBJ_SIZE,
                    1 <= num_objects <= CLASS_TO_SPAN_OBJECTS[class_idx as int] <= 4,
                ensures
                    num_objects == CLASS_TO_SPAN_OBJECTS[class_idx as int],
                decreases CLASS_TO_SPAN_OBJECTS[class_idx as int] - num_objects,
            {
                proof {
                    lemma_large_class_pages(class_idx as int, num_objects as int);
                }
                let num_pages = (obj_size * num_objects + (PAGE_SIZE - 1)) / PAGE_SIZE;
                let waste = num_pages * PAGE_SIZE % obj_size;
                if 8 * waste < num_pages * PAGE_SIZE {
                    break ;
                }
                num_objects += 1;
            }
            proof {
                lemma_large_class_pages(class_idx as int, num_objects as int);
            }
            table[class_idx] = (obj_size * num_objects + (PAGE_SIZE - 1)) / PAGE_SIZE;
        }
        class_idx += 1;
    }
    assert(table@ =~= CLASS_TO_ALLOC_PAGES@);
    table
}

/// The size of the objects of class `class`.
pub fn get_obj_size(class: usize) -> (size: usize)
    requires
        class < NUM_SIZE_CLASSES,
    ensures
        size == class_size(class as int),
{
    CLASS_TO_SIZE[class] as usize
}

/// The number of pages in a span of class `class`.
pub fn get_alloc_pages(class: usize) -> (pages: usize)
    requires
        class < NUM_SIZE_CLASSES,
    ensures
        pages == CLASS_TO_ALLOC_PAGES[class as int],
{
    CLASS_TO_ALLOC_PAGES[class]
}

/// The class that serves objects of `size` bytes: the first whose objects
/// are at least that large, or 0 for sizes beyond the largest class.
pub fn get_size_class(size: usize) -> (class: usize)
    ensures
        size > MAX_SMALL_OBJ_SIZE ==> class == 0,
        size <= MAX_SMALL_OBJ_SIZE ==> is_size_class(size as int, class as int),
{
    if size > MAX_SMALL_OBJ_SIZE {
        return 0;
    }
    let bucket = if size <= 1024 {
        (size + 7) / 8
    } else {
        NUM_SMALL_BUCKETS + (size - 1024 + 127) / 128
    };
    proof {
        lemma_bucket_class(bucket as int);
        let c = SIZE_TO_CLASS[bucket as int] as int;
        if c > 0 {
            lemma_class_sizes(c - 1);
        }
    }
    SIZE_TO_CLASS[bucket] as usize
}

} // verus!
