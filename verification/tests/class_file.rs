use java_lsp::class_file::load_class;
use java_lsp::dto::{Access, Class, ClassError, Field, ImportUnit, JType, Method, Parameter, SuperClass};
use java_lsp::loader::SourceDestination;

// Compiled with `javac -g -parameters` from the sources that each test names.
const THROWER_CLASS: &[u8] = &[
    0xca, 0xfe, 0xba, 0xbe, 0x00, 0x00, 0x00, 0x3d, 0x00, 0x18, 0x0a, 0x00, 0x02, 0x00, 0x03, 0x07,
    0x00, 0x04, 0x0c, 0x00, 0x05, 0x00, 0x06, 0x01, 0x00, 0x10, 0x6a, 0x61, 0x76, 0x61, 0x2f, 0x6c,
    0x61, 0x6e, 0x67, 0x2f, 0x4f, 0x62, 0x6a, 0x65, 0x63, 0x74, 0x01, 0x00, 0x06, 0x3c, 0x69, 0x6e,
    0x69, 0x74, 0x3e, 0x01, 0x00, 0x03, 0x28, 0x29, 0x56, 0x07, 0x00, 0x08, 0x01, 0x00, 0x15, 0x63,
    0x68, 0x2f, 0x65, 0x6d, 0x69, 0x6c, 0x79, 0x63, 0x61, 0x72, 0x65, 0x73, 0x2f, 0x54, 0x68, 0x72,
    0x6f, 0x77, 0x65, 0x72, 0x01, 0x00, 0x04, 0x43, 0x6f, 0x64, 0x65, 0x01, 0x00, 0x0f, 0x4c, 0x69,
    0x6e, 0x65, 0x4e, 0x75, 0x6d, 0x62, 0x65, 0x72, 0x54, 0x61, 0x62, 0x6c, 0x65, 0x01, 0x00, 0x12,
    0x4c, 0x6f, 0x63, 0x61, 0x6c, 0x56, 0x61, 0x72, 0x69, 0x61, 0x62, 0x6c, 0x65, 0x54, 0x61, 0x62,
    0x6c, 0x65, 0x01, 0x00, 0x04, 0x74, 0x68, 0x69, 0x73, 0x01, 0x00, 0x17, 0x4c, 0x63, 0x68, 0x2f,
    0x65, 0x6d, 0x69, 0x6c, 0x79, 0x63, 0x61, 0x72, 0x65, 0x73, 0x2f, 0x54, 0x68, 0x72, 0x6f, 0x77,
    0x65, 0x72, 0x3b, 0x01, 0x00, 0x09, 0x69, 0x6f, 0x54, 0x68, 0x72, 0x6f, 0x77, 0x65, 0x72, 0x01,
    0x00, 0x0a, 0x45, 0x78, 0x63, 0x65, 0x70, 0x74, 0x69, 0x6f, 0x6e, 0x73, 0x07, 0x00, 0x11, 0x01,
    0x00, 0x13, 0x6a, 0x61, 0x76, 0x61, 0x2f, 0x69, 0x6f, 0x2f, 0x49, 0x4f, 0x45, 0x78, 0x63, 0x65,
    0x70, 0x74, 0x69, 0x6f, 0x6e, 0x01, 0x00, 0x04, 0x28, 0x49, 0x29, 0x56, 0x01, 0x00, 0x01, 0x61,
    0x01, 0x00, 0x01, 0x49, 0x01, 0x00, 0x10, 0x4d, 0x65, 0x74, 0x68, 0x6f, 0x64, 0x50, 0x61, 0x72,
    0x61, 0x6d, 0x65, 0x74, 0x65, 0x72, 0x73, 0x01, 0x00, 0x0a, 0x53, 0x6f, 0x75, 0x72, 0x63, 0x65,
    0x46, 0x69, 0x6c, 0x65, 0x01, 0x00, 0x0c, 0x54, 0x68, 0x72, 0x6f, 0x77, 0x65, 0x72, 0x2e, 0x6a,
    0x61, 0x76, 0x61, 0x00, 0x21, 0x00, 0x07, 0x00, 0x02, 0x00, 0x00, 0x00, 0x00, 0x00, 0x03, 0x00,
    0x01, 0x00, 0x05, 0x00, 0x06, 0x00, 0x01, 0x00, 0x09, 0x00, 0x00, 0x00, 0x2f, 0x00, 0x01, 0x00,
    0x01, 0x00, 0x00, 0x00, 0x05, 0x2a, 0xb7, 0x00, 0x01, 0xb1, 0x00, 0x00, 0x00, 0x02, 0x00, 0x0a,
    0x00, 0x00, 0x00, 0x06, 0x00, 0x01, 0x00, 0x00, 0x00, 0x05, 0x00, 0x0b, 0x00, 0x00, 0x00, 0x0c,
    0x00, 0x01, 0x00, 0x00, 0x00, 0x05, 0x00, 0x0c, 0x00, 0x0d, 0x00, 0x00, 0x00, 0x01, 0x00, 0x0e,
    0x00, 0x06, 0x00, 0x02, 0x00, 0x09, 0x00, 0x00, 0x00, 0x2b, 0x00, 0x00, 0x00, 0x01, 0x00, 0x00,
    0x00, 0x01, 0xb1, 0x00, 0x00, 0x00, 0x02, 0x00, 0x0a, 0x00, 0x00, 0x00, 0x06, 0x00, 0x01, 0x00,
    0x00, 0x00, 0x07, 0x00, 0x0b, 0x00, 0x00, 0x00, 0x0c, 0x00, 0x01, 0x00, 0x00, 0x00, 0x01, 0x00,
    0x0c, 0x00, 0x0d, 0x00, 0x00, 0x00, 0x0f, 0x00, 0x00, 0x00, 0x04, 0x00, 0x01, 0x00, 0x10, 0x00,
    0x01, 0x00, 0x0e, 0x00, 0x12, 0x00, 0x03, 0x00, 0x09, 0x00, 0x00, 0x00, 0x35, 0x00, 0x00, 0x00,
    0x02, 0x00, 0x00, 0x00, 0x01, 0xb1, 0x00, 0x00, 0x00, 0x02, 0x00, 0x0a, 0x00, 0x00, 0x00, 0x06,
    0x00, 0x01, 0x00, 0x00, 0x00, 0x0a, 0x00, 0x0b, 0x00, 0x00, 0x00, 0x16, 0x00, 0x02, 0x00, 0x00,
    0x00, 0x01, 0x00, 0x0c, 0x00, 0x0d, 0x00, 0x00, 0x00, 0x00, 0x00, 0x01, 0x00, 0x13, 0x00, 0x14,
    0x00, 0x01, 0x00, 0x0f, 0x00, 0x00, 0x00, 0x06, 0x00, 0x02, 0x00, 0x10, 0x00, 0x10, 0x00, 0x15,
    0x00, 0x00, 0x00, 0x05, 0x01, 0x00, 0x13, 0x00, 0x00, 0x00, 0x01, 0x00, 0x16, 0x00, 0x00, 0x00,
    0x02, 0x00, 0x17,
];

const LOCALVARIABLETABLE_CLASS: &[u8] = &[
    0xca, 0xfe, 0xba, 0xbe, 0x00, 0x00, 0x00, 0x3d, 0x00, 0x31, 0x0a, 0x00, 0x02, 0x00, 0x03, 0x07,
    0x00, 0x04, 0x0c, 0x00, 0x05, 0x00, 0x06, 0x01, 0x00, 0x10, 0x6a, 0x61, 0x76, 0x61, 0x2f, 0x6c,
    0x61, 0x6e, 0x67, 0x2f, 0x4f, 0x62, 0x6a, 0x65, 0x63, 0x74, 0x01, 0x00, 0x06, 0x3c, 0x69, 0x6e,
    0x69, 0x74, 0x3e, 0x01, 0x00, 0x03, 0x28, 0x29, 0x56, 0x07, 0x00, 0x08, 0x01, 0x00, 0x11, 0x6a,
    0x61, 0x76, 0x61, 0x2f, 0x75, 0x74, 0x69, 0x6c, 0x2f, 0x48, 0x61, 0x73, 0x68, 0x53, 0x65, 0x74,
    0x0a, 0x00, 0x07, 0x00, 0x03, 0x09, 0x00, 0x0b, 0x00, 0x0c, 0x07, 0x00, 0x0d, 0x0c, 0x00, 0x0e,
    0x00, 0x0f, 0x01, 0x00, 0x20, 0x63, 0x68, 0x2f, 0x65, 0x6d, 0x69, 0x6c, 0x79, 0x63, 0x61, 0x72,
    0x65, 0x73, 0x2f, 0x4c, 0x6f, 0x63, 0x61, 0x6c, 0x56, 0x61, 0x72, 0x69, 0x61, 0x62, 0x6c, 0x65,
    0x54, 0x61, 0x62, 0x6c, 0x65, 0x01, 0x00, 0x01, 0x61, 0x01, 0x00, 0x13, 0x4c, 0x6a, 0x61, 0x76,
    0x61, 0x2f, 0x75, 0x74, 0x69, 0x6c, 0x2f, 0x48, 0x61, 0x73, 0x68, 0x53, 0x65, 0x74, 0x3b, 0x07,
    0x00, 0x11, 0x01, 0x00, 0x11, 0x6a, 0x61, 0x76, 0x61, 0x2f, 0x75, 0x74, 0x69, 0x6c, 0x2f, 0x48,
    0x61, 0x73, 0x68, 0x4d, 0x61, 0x70, 0x0a, 0x00, 0x10, 0x00, 0x03, 0x0a, 0x00, 0x14, 0x00, 0x15,
    0x07, 0x00, 0x16, 0x0c, 0x00, 0x17, 0x00, 0x18, 0x01, 0x00, 0x11, 0x6a, 0x61, 0x76, 0x61, 0x2f,
    0x6c, 0x61, 0x6e, 0x67, 0x2f, 0x49, 0x6e, 0x74, 0x65, 0x67, 0x65, 0x72, 0x01, 0x00, 0x07, 0x76,
    0x61, 0x6c, 0x75, 0x65, 0x4f, 0x66, 0x01, 0x00, 0x16, 0x28, 0x49, 0x29, 0x4c, 0x6a, 0x61, 0x76,
    0x61, 0x2f, 0x6c, 0x61, 0x6e, 0x67, 0x2f, 0x49, 0x6e, 0x74, 0x65, 0x67, 0x65, 0x72, 0x3b, 0x08,
    0x00, 0x1a, 0x01, 0x00, 0x01, 0x20, 0x0a, 0x00, 0x10, 0x00, 0x1c, 0x0c, 0x00, 0x1d, 0x00, 0x1e,
    0x01, 0x00, 0x03, 0x70, 0x75, 0x74, 0x01, 0x00, 0x38, 0x28, 0x4c, 0x6a, 0x61, 0x76, 0x61, 0x2f,
    0x6c, 0x61, 0x6e, 0x67, 0x2f, 0x4f, 0x62, 0x6a, 0x65, 0x63, 0x74, 0x3b, 0x4c, 0x6a, 0x61, 0x76,
    0x61, 0x2f, 0x6c, 0x61, 0x6e, 0x67, 0x2f, 0x4f, 0x62, 0x6a, 0x65, 0x63, 0x74, 0x3b, 0x29, 0x4c,
    0x6a, 0x61, 0x76, 0x61, 0x2f, 0x6c, 0x61, 0x6e, 0x67, 0x2f, 0x4f, 0x62, 0x6a, 0x65, 0x63, 0x74,
    0x3b, 0x01, 0x00, 0x09, 0x53, 0x69, 0x67, 0x6e, 0x61, 0x74, 0x75, 0x72, 0x65, 0x01, 0x00, 0x27,
    0x4c, 0x6a, 0x61, 0x76, 0x61, 0x2f, 0x75, 0x74, 0x69, 0x6c, 0x2f, 0x48, 0x61, 0x73, 0x68, 0x53,
    0x65, 0x74, 0x3c, 0x4c, 0x6a, 0x61, 0x76, 0x61, 0x2f, 0x6c, 0x61, 0x6e, 0x67, 0x2f, 0x53, 0x74,
    0x72, 0x69, 0x6e, 0x67, 0x3b, 0x3e, 0x3b, 0x01, 0x00, 0x04, 0x43, 0x6f, 0x64, 0x65, 0x01, 0x00,
    0x0f, 0x4c, 0x69, 0x6e, 0x65, 0x4e, 0x75, 0x6d, 0x62, 0x65, 0x72, 0x54, 0x61, 0x62, 0x6c, 0x65,
    0x01, 0x00, 0x12, 0x4c, 0x6f, 0x63, 0x61, 0x6c, 0x56, 0x61, 0x72, 0x69, 0x61, 0x62, 0x6c, 0x65,
    0x54, 0x61, 0x62, 0x6c, 0x65, 0x01, 0x00, 0x04, 0x74, 0x68, 0x69, 0x73, 0x01, 0x00, 0x22, 0x4c,
    0x63, 0x68, 0x2f, 0x65, 0x6d, 0x69, 0x6c, 0x79, 0x63, 0x61, 0x72, 0x65, 0x73, 0x2f, 0x4c, 0x6f,
    0x63, 0x61, 0x6c, 0x56, 0x61, 0x72, 0x69, 0x61, 0x62, 0x6c, 0x65, 0x54, 0x61, 0x62, 0x6c, 0x65,
    0x3b, 0x01, 0x00, 0x0a, 0x68, 0x65, 0x72, 0x65, 0x49, 0x73, 0x43, 0x6f, 0x64, 0x65, 0x01, 0x00,
    0x13, 0x4c, 0x6a, 0x61, 0x76, 0x61, 0x2f, 0x75, 0x74, 0x69, 0x6c, 0x2f, 0x48, 0x61, 0x73, 0x68,
    0x4d, 0x61, 0x70, 0x3b, 0x01, 0x00, 0x16, 0x4c, 0x6f, 0x63, 0x61, 0x6c, 0x56, 0x61, 0x72, 0x69,
    0x61, 0x62, 0x6c, 0x65, 0x54, 0x79, 0x70, 0x65, 0x54, 0x61, 0x62, 0x6c, 0x65, 0x01, 0x00, 0x3a,
    0x4c, 0x6a, 0x61, 0x76, 0x61, 0x2f, 0x75, 0x74, 0x69, 0x6c, 0x2f, 0x48, 0x61, 0x73, 0x68, 0x4d,
    0x61, 0x70, 0x3c, 0x4c, 0x6a, 0x61, 0x76, 0x61, 0x2f, 0x6c, 0x61, 0x6e, 0x67, 0x2f, 0x49, 0x6e,
    0x74, 0x65, 0x67, 0x65, 0x72, 0x3b, 0x4c, 0x6a, 0x61, 0x76, 0x61, 0x2f, 0x6c, 0x61, 0x6e, 0x67,
    0x2f, 0x53, 0x74, 0x72, 0x69, 0x6e, 0x67, 0x3b, 0x3e, 0x3b, 0x01, 0x00, 0x05, 0x28, 0x49, 0x49,
    0x29, 0x49, 0x01, 0x00, 0x01, 0x49, 0x01, 0x00, 0x01, 0x62, 0x01, 0x00, 0x01, 0x6f, 0x01, 0x00,
    0x10, 0x4d, 0x65, 0x74, 0x68, 0x6f, 0x64, 0x50, 0x61, 0x72, 0x61, 0x6d, 0x65, 0x74, 0x65, 0x72,
    0x73, 0x01, 0x00, 0x0a, 0x53, 0x6f, 0x75, 0x72, 0x63, 0x65, 0x46, 0x69, 0x6c, 0x65, 0x01, 0x00,
    0x17, 0x4c, 0x6f, 0x63, 0x61, 0x6c, 0x56, 0x61, 0x72, 0x69, 0x61, 0x62, 0x6c, 0x65, 0x54, 0x61,
    0x62, 0x6c, 0x65, 0x2e, 0x6a, 0x61, 0x76, 0x61, 0x00, 0x21, 0x00, 0x0b, 0x00, 0x02, 0x00, 0x00,
    0x00, 0x01, 0x00, 0x02, 0x00, 0x0e, 0x00, 0x0f, 0x00, 0x01, 0x00, 0x1f, 0x00, 0x00, 0x00, 0x02,
    0x00, 0x20, 0x00, 0x03, 0x00, 0x01, 0x00, 0x05, 0x00, 0x06, 0x00, 0x01, 0x00, 0x21, 0x00, 0x00,
    0x00, 0x3e, 0x00, 0x03, 0x00, 0x01, 0x00, 0x00, 0x00, 0x10, 0x2a, 0xb7, 0x00, 0x01, 0x2a, 0xbb,
    0x00, 0x07, 0x59, 0xb7, 0x00, 0x09, 0xb5, 0x00, 0x0a, 0xb1, 0x00, 0x00, 0x00, 0x02, 0x00, 0x22,
    0x00, 0x00, 0x00, 0x0a, 0x00, 0x02, 0x00, 0x00, 0x00, 0x05, 0x00, 0x04, 0x00, 0x06, 0x00, 0x23,
    0x00, 0x00, 0x00, 0x0c, 0x00, 0x01, 0x00, 0x00, 0x00, 0x10, 0x00, 0x24, 0x00, 0x25, 0x00, 0x00,
    0x00, 0x01, 0x00, 0x26, 0x00, 0x06, 0x00, 0x01, 0x00, 0x21, 0x00, 0x00, 0x00, 0x62, 0x00, 0x03,
    0x00, 0x02, 0x00, 0x00, 0x00, 0x14, 0xbb, 0x00, 0x10, 0x59, 0xb7, 0x00, 0x12, 0x4c, 0x2b, 0x04,
    0xb8, 0x00, 0x13, 0x12, 0x19, 0xb6, 0x00, 0x1b, 0x57, 0xb1, 0x00, 0x00, 0x00, 0x03, 0x00, 0x22,
    0x00, 0x00, 0x00, 0x0e, 0x00, 0x03, 0x00, 0x00, 0x00, 0x09, 0x00, 0x08, 0x00, 0x0a, 0x00, 0x13,
    0x00, 0x0b, 0x00, 0x23, 0x00, 0x00, 0x00, 0x16, 0x00, 0x02, 0x00, 0x00, 0x00, 0x14, 0x00, 0x24,
    0x00, 0x25, 0x00, 0x00, 0x00, 0x08, 0x00, 0x0c, 0x00, 0x0e, 0x00, 0x27, 0x00, 0x01, 0x00, 0x28,
    0x00, 0x00, 0x00, 0x0c, 0x00, 0x01, 0x00, 0x08, 0x00, 0x0c, 0x00, 0x0e, 0x00, 0x29, 0x00, 0x01,
    0x00, 0x01, 0x00, 0x26, 0x00, 0x2a, 0x00, 0x02, 0x00, 0x21, 0x00, 0x00, 0x00, 0x54, 0x00, 0x02,
    0x00, 0x04, 0x00, 0x00, 0x00, 0x08, 0x1b, 0x1c, 0x60, 0x3e, 0x1d, 0x04, 0x64, 0xac, 0x00, 0x00,
    0x00, 0x02, 0x00, 0x22, 0x00, 0x00, 0x00, 0x0a, 0x00, 0x02, 0x00, 0x00, 0x00, 0x0e, 0x00, 0x04,
    0x00, 0x0f, 0x00, 0x23, 0x00, 0x00, 0x00, 0x2a, 0x00, 0x04, 0x00, 0x00, 0x00, 0x08, 0x00, 0x24,
    0x00, 0x25, 0x00, 0x00, 0x00, 0x00, 0x00, 0x08, 0x00, 0x0e, 0x00, 0x2b, 0x00, 0x01, 0x00, 0x00,
    0x00, 0x08, 0x00, 0x2c, 0x00, 0x2b, 0x00, 0x02, 0x00, 0x04, 0x00, 0x04, 0x00, 0x2d, 0x00, 0x2b,
    0x00, 0x03, 0x00, 0x2e, 0x00, 0x00, 0x00, 0x09, 0x02, 0x00, 0x0e, 0x00, 0x00, 0x00, 0x2c, 0x00,
    0x00, 0x00, 0x01, 0x00, 0x2f, 0x00, 0x00, 0x00, 0x02, 0x00, 0x30,
];

const SUPER_CLASS: &[u8] = &[
    0xca, 0xfe, 0xba, 0xbe, 0x00, 0x00, 0x00, 0x3d, 0x00, 0x10, 0x0a, 0x00, 0x02, 0x00, 0x03, 0x07,
    0x00, 0x04, 0x0c, 0x00, 0x05, 0x00, 0x06, 0x01, 0x00, 0x13, 0x6a, 0x61, 0x76, 0x61, 0x2f, 0x69,
    0x6f, 0x2f, 0x49, 0x4f, 0x45, 0x78, 0x63, 0x65, 0x70, 0x74, 0x69, 0x6f, 0x6e, 0x01, 0x00, 0x06,
    0x3c, 0x69, 0x6e, 0x69, 0x74, 0x3e, 0x01, 0x00, 0x03, 0x28, 0x29, 0x56, 0x07, 0x00, 0x08, 0x01,
    0x00, 0x13, 0x63, 0x68, 0x2f, 0x65, 0x6d, 0x69, 0x6c, 0x79, 0x63, 0x61, 0x72, 0x65, 0x73, 0x2f,
    0x53, 0x75, 0x70, 0x65, 0x72, 0x01, 0x00, 0x04, 0x43, 0x6f, 0x64, 0x65, 0x01, 0x00, 0x0f, 0x4c,
    0x69, 0x6e, 0x65, 0x4e, 0x75, 0x6d, 0x62, 0x65, 0x72, 0x54, 0x61, 0x62, 0x6c, 0x65, 0x01, 0x00,
    0x12, 0x4c, 0x6f, 0x63, 0x61, 0x6c, 0x56, 0x61, 0x72, 0x69, 0x61, 0x62, 0x6c, 0x65, 0x54, 0x61,
    0x62, 0x6c, 0x65, 0x01, 0x00, 0x04, 0x74, 0x68, 0x69, 0x73, 0x01, 0x00, 0x15, 0x4c, 0x63, 0x68,
    0x2f, 0x65, 0x6d, 0x69, 0x6c, 0x79, 0x63, 0x61, 0x72, 0x65, 0x73, 0x2f, 0x53, 0x75, 0x70, 0x65,
    0x72, 0x3b, 0x01, 0x00, 0x0a, 0x53, 0x6f, 0x75, 0x72, 0x63, 0x65, 0x46, 0x69, 0x6c, 0x65, 0x01,
    0x00, 0x0a, 0x53, 0x75, 0x70, 0x65, 0x72, 0x2e, 0x6a, 0x61, 0x76, 0x61, 0x00, 0x21, 0x00, 0x07,
    0x00, 0x02, 0x00, 0x00, 0x00, 0x00, 0x00, 0x01, 0x00, 0x01, 0x00, 0x05, 0x00, 0x06, 0x00, 0x01,
    0x00, 0x09, 0x00, 0x00, 0x00, 0x2f, 0x00, 0x01, 0x00, 0x01, 0x00, 0x00, 0x00, 0x05, 0x2a, 0xb7,
    0x00, 0x01, 0xb1, 0x00, 0x00, 0x00, 0x02, 0x00, 0x0a, 0x00, 0x00, 0x00, 0x06, 0x00, 0x01, 0x00,
    0x00, 0x00, 0x05, 0x00, 0x0b, 0x00, 0x00, 0x00, 0x0c, 0x00, 0x01, 0x00, 0x00, 0x00, 0x05, 0x00,
    0x0c, 0x00, 0x0d, 0x00, 0x00, 0x00, 0x01, 0x00, 0x0e, 0x00, 0x00, 0x00, 0x02, 0x00, 0x0f,
];

const SUPERINTERFACE_CLASS: &[u8] = &[
    0xca, 0xfe, 0xba, 0xbe, 0x00, 0x00, 0x00, 0x3d, 0x00, 0x20, 0x0b, 0x00, 0x02, 0x00, 0x03, 0x07,
    0x00, 0x04, 0x0c, 0x00, 0x05, 0x00, 0x06, 0x01, 0x00, 0x1c, 0x63, 0x68, 0x2f, 0x65, 0x6d, 0x69,
    0x6c, 0x79, 0x63, 0x61, 0x72, 0x65, 0x73, 0x2f, 0x53, 0x75, 0x70, 0x65, 0x72, 0x49, 0x6e, 0x74,
    0x65, 0x72, 0x66, 0x61, 0x63, 0x65, 0x01, 0x00, 0x0b, 0x73, 0x70, 0x6c, 0x69, 0x74, 0x65, 0x72,
    0x61, 0x74, 0x6f, 0x72, 0x01, 0x00, 0x19, 0x28, 0x29, 0x4c, 0x6a, 0x61, 0x76, 0x61, 0x2f, 0x75,
    0x74, 0x69, 0x6c, 0x2f, 0x53, 0x70, 0x6c, 0x69, 0x74, 0x65, 0x72, 0x61, 0x74, 0x6f, 0x72, 0x3b,
    0x0a, 0x00, 0x08, 0x00, 0x09, 0x07, 0x00, 0x0a, 0x0c, 0x00, 0x0b, 0x00, 0x0c, 0x01, 0x00, 0x1e,
    0x6a, 0x61, 0x76, 0x61, 0x2f, 0x75, 0x74, 0x69, 0x6c, 0x2f, 0x73, 0x74, 0x72, 0x65, 0x61, 0x6d,
    0x2f, 0x53, 0x74, 0x72, 0x65, 0x61, 0x6d, 0x53, 0x75, 0x70, 0x70, 0x6f, 0x72, 0x74, 0x01, 0x00,
    0x06, 0x73, 0x74, 0x72, 0x65, 0x61, 0x6d, 0x01, 0x00, 0x33, 0x28, 0x4c, 0x6a, 0x61, 0x76, 0x61,
    0x2f, 0x75, 0x74, 0x69, 0x6c, 0x2f, 0x53, 0x70, 0x6c, 0x69, 0x74, 0x65, 0x72, 0x61, 0x74, 0x6f,
    0x72, 0x3b, 0x5a, 0x29, 0x4c, 0x6a, 0x61, 0x76, 0x61, 0x2f, 0x75, 0x74, 0x69, 0x6c, 0x2f, 0x73,
    0x74, 0x72, 0x65, 0x61, 0x6d, 0x2f, 0x53, 0x74, 0x72, 0x65, 0x61, 0x6d, 0x3b, 0x07, 0x00, 0x0e,
    0x01, 0x00, 0x10, 0x6a, 0x61, 0x76, 0x61, 0x2f, 0x6c, 0x61, 0x6e, 0x67, 0x2f, 0x4f, 0x62, 0x6a,
    0x65, 0x63, 0x74, 0x07, 0x00, 0x10, 0x01, 0x00, 0x14, 0x6a, 0x61, 0x76, 0x61, 0x2f, 0x75, 0x74,
    0x69, 0x6c, 0x2f, 0x43, 0x6f, 0x6c, 0x6c, 0x65, 0x63, 0x74, 0x69, 0x6f, 0x6e, 0x07, 0x00, 0x12,
    0x01, 0x00, 0x0e, 0x6a, 0x61, 0x76, 0x61, 0x2f, 0x75, 0x74, 0x69, 0x6c, 0x2f, 0x4c, 0x69, 0x73,
    0x74, 0x01, 0x00, 0x1b, 0x28, 0x29, 0x4c, 0x6a, 0x61, 0x76, 0x61, 0x2f, 0x75, 0x74, 0x69, 0x6c,
    0x2f, 0x73, 0x74, 0x72, 0x65, 0x61, 0x6d, 0x2f, 0x53, 0x74, 0x72, 0x65, 0x61, 0x6d, 0x3b, 0x01,
    0x00, 0x04, 0x43, 0x6f, 0x64, 0x65, 0x01, 0x00, 0x0f, 0x4c, 0x69, 0x6e, 0x65, 0x4e, 0x75, 0x6d,
    0x62, 0x65, 0x72, 0x54, 0x61, 0x62, 0x6c, 0x65, 0x01, 0x00, 0x12, 0x4c, 0x6f, 0x63, 0x61, 0x6c,
    0x56, 0x61, 0x72, 0x69, 0x61, 0x62, 0x6c, 0x65, 0x54, 0x61, 0x62, 0x6c, 0x65, 0x01, 0x00, 0x04,
    0x74, 0x68, 0x69, 0x73, 0x01, 0x00, 0x1e, 0x4c, 0x63, 0x68, 0x2f, 0x65, 0x6d, 0x69, 0x6c, 0x79,
    0x63, 0x61, 0x72, 0x65, 0x73, 0x2f, 0x53, 0x75, 0x70, 0x65, 0x72, 0x49, 0x6e, 0x74, 0x65, 0x72,
    0x66, 0x61, 0x63, 0x65, 0x3b, 0x01, 0x00, 0x16, 0x4c, 0x6f, 0x63, 0x61, 0x6c, 0x56, 0x61, 0x72,
    0x69, 0x61, 0x62, 0x6c, 0x65, 0x54, 0x79, 0x70, 0x65, 0x54, 0x61, 0x62, 0x6c, 0x65, 0x01, 0x00,
    0x23, 0x4c, 0x63, 0x68, 0x2f, 0x65, 0x6d, 0x69, 0x6c, 0x79, 0x63, 0x61, 0x72, 0x65, 0x73, 0x2f,
    0x53, 0x75, 0x70, 0x65, 0x72, 0x49, 0x6e, 0x74, 0x65, 0x72, 0x66, 0x61, 0x63, 0x65, 0x3c, 0x54,
    0x45, 0x3b, 0x3e, 0x3b, 0x01, 0x00, 0x09, 0x53, 0x69, 0x67, 0x6e, 0x61, 0x74, 0x75, 0x72, 0x65,
    0x01, 0x00, 0x20, 0x28, 0x29, 0x4c, 0x6a, 0x61, 0x76, 0x61, 0x2f, 0x75, 0x74, 0x69, 0x6c, 0x2f,
    0x73, 0x74, 0x72, 0x65, 0x61, 0x6d, 0x2f, 0x53, 0x74, 0x72, 0x65, 0x61, 0x6d, 0x3c, 0x54, 0x45,
    0x3b, 0x3e, 0x3b, 0x01, 0x00, 0x58, 0x3c, 0x45, 0x3a, 0x4c, 0x6a, 0x61, 0x76, 0x61, 0x2f, 0x6c,
    0x61, 0x6e, 0x67, 0x2f, 0x4f, 0x62, 0x6a, 0x65, 0x63, 0x74, 0x3b, 0x3e, 0x4c, 0x6a, 0x61, 0x76,
    0x61, 0x2f, 0x6c, 0x61, 0x6e, 0x67, 0x2f, 0x4f, 0x62, 0x6a, 0x65, 0x63, 0x74, 0x3b, 0x4c, 0x6a,
    0x61, 0x76, 0x61, 0x2f, 0x75, 0x74, 0x69, 0x6c, 0x2f, 0x43, 0x6f, 0x6c, 0x6c, 0x65, 0x63, 0x74,
    0x69, 0x6f, 0x6e, 0x3c, 0x54, 0x45, 0x3b, 0x3e, 0x3b, 0x4c, 0x6a, 0x61, 0x76, 0x61, 0x2f, 0x75,
    0x74, 0x69, 0x6c, 0x2f, 0x4c, 0x69, 0x73, 0x74, 0x3c, 0x54, 0x45, 0x3b, 0x3e, 0x3b, 0x01, 0x00,
    0x0a, 0x53, 0x6f, 0x75, 0x72, 0x63, 0x65, 0x46, 0x69, 0x6c, 0x65, 0x01, 0x00, 0x13, 0x53, 0x75,
    0x70, 0x65, 0x72, 0x49, 0x6e, 0x74, 0x65, 0x72, 0x66, 0x61, 0x63, 0x65, 0x2e, 0x6a, 0x61, 0x76,
    0x61, 0x06, 0x01, 0x00, 0x02, 0x00, 0x0d, 0x00, 0x02, 0x00, 0x0f, 0x00, 0x11, 0x00, 0x00, 0x00,
    0x01, 0x00, 0x01, 0x00, 0x0b, 0x00, 0x13, 0x00, 0x02, 0x00, 0x14, 0x00, 0x00, 0x00, 0x47, 0x00,
    0x02, 0x00, 0x01, 0x00, 0x00, 0x00, 0x0b, 0x2a, 0xb9, 0x00, 0x01, 0x01, 0x00, 0x03, 0xb8, 0x00,
    0x07, 0xb0, 0x00, 0x00, 0x00, 0x03, 0x00, 0x15, 0x00, 0x00, 0x00, 0x06, 0x00, 0x01, 0x00, 0x00,
    0x00, 0x0a, 0x00, 0x16, 0x00, 0x00, 0x00, 0x0c, 0x00, 0x01, 0x00, 0x00, 0x00, 0x0b, 0x00, 0x17,
    0x00, 0x18, 0x00, 0x00, 0x00, 0x19, 0x00, 0x00, 0x00, 0x0c, 0x00, 0x01, 0x00, 0x00, 0x00, 0x0b,
    0x00, 0x17, 0x00, 0x1a, 0x00, 0x00, 0x00, 0x1b, 0x00, 0x00, 0x00, 0x02, 0x00, 0x1c, 0x00, 0x02,
    0x00, 0x1b, 0x00, 0x00, 0x00, 0x02, 0x00, 0x1d, 0x00, 0x1e, 0x00, 0x00, 0x00, 0x02, 0x00, 0x1f,
];

fn method(name: &str, parameters: Vec<Parameter>, ret: JType, throws: Vec<JType>) -> Method {
    Method {
        access: Access::from_bits(Access::Public),
        name: name.to_string(),
        parameters,
        throws,
        ret,
        source: None,
    }
}

fn param(name: &str, jtype: JType) -> Parameter {
    Parameter { name: Some(name.to_string()), jtype }
}

fn io() -> JType {
    JType::Class("IOException".to_string())
}

/// `Thrower.java`: `public void ioThrower() throws IOException {}` and
/// `public void ioThrower(int a) throws IOException, IOException {}`.
#[test]
fn class_thrower() {
    let result = load_class(
        THROWER_CLASS,
        "ch.emilycares.Thrower".to_string(),
        SourceDestination::Here("/path/to/source/Thrower.java".to_string()),
    );
    assert_eq!(
        result.unwrap(),
        Class {
            class_path: "ch.emilycares.Thrower".to_string(),
            source: "/path/to/source/Thrower.java".to_string(),
            imports: vec![ImportUnit::Package("ch.emilycares".to_string())],
            name: "Thrower".to_string(),
            methods: vec![
                method("ioThrower", vec![], JType::Void, vec![io()]),
                method("ioThrower", vec![param("a", JType::Int)], JType::Void, vec![io(), io()]),
            ],
            ..Default::default()
        }
    );
}

/// `LocalVariableTable.java`: a private `HashSet<String>` field, a method
/// with a local `HashMap`, and `int hereIsCode(int a, int b)`.
#[test]
fn variables() {
    let result = load_class(
        LOCALVARIABLETABLE_CLASS,
        "ch.emilycares.LocalVariableTable".to_string(),
        SourceDestination::Empty,
    );
    assert_eq!(
        result.unwrap(),
        Class {
            class_path: "ch.emilycares.LocalVariableTable".to_string(),
            source: "".to_string(),
            imports: vec![
                ImportUnit::Package("ch.emilycares".to_string()),
                ImportUnit::Class("java.util.HashMap".to_string()),
                ImportUnit::Class("java.util.HashSet".to_string()),
            ],
            name: "LocalVariableTable".to_string(),
            methods: vec![
                method("hereIsCode", vec![], JType::Void, vec![]),
                method(
                    "hereIsCode",
                    vec![param("a", JType::Int), param("b", JType::Int)],
                    JType::Int,
                    vec![]
                ),
            ],
            fields: vec![Field {
                access: Access::from_bits(Access::Private),
                name: "a".to_string(),
                jtype: JType::Class("java.util.HashSet".to_string()),
                source: None,
            }],
            ..Default::default()
        }
    );
}

/// `Super.java`: `public class Super extends IOException {}`.
#[test]
fn super_base() {
    let result = load_class(SUPER_CLASS, "ch.emilycares.Super".to_string(), SourceDestination::Empty);
    assert_eq!(
        result.unwrap(),
        Class {
            class_path: "ch.emilycares.Super".to_string(),
            imports: vec![ImportUnit::Package("ch.emilycares".to_string())],
            name: "Super".to_string(),
            super_class: SuperClass::Name("IOException".to_string()),
            ..Default::default()
        }
    );
}

/// `SuperInterface.java`: an interface extending `Collection<E>` and
/// `List<E>` with a default `Stream<E> stream()`.
#[test]
fn class_super_interfaces() {
    let result = load_class(
        SUPERINTERFACE_CLASS,
        "ch.emilycares.SuperInterface".to_string(),
        SourceDestination::Empty,
    )
    .unwrap();
    assert_eq!(
        result,
        Class {
            class_path: "ch.emilycares.SuperInterface".to_string(),
            imports: vec![
                ImportUnit::Package("ch.emilycares".to_string()),
                ImportUnit::Class("java.util.stream.Stream".to_string()),
            ],
            name: "SuperInterface".to_string(),
            super_interfaces: vec![
                SuperClass::Name("Collection".to_string()),
                SuperClass::Name("List".to_string()),
            ],
            methods: vec![method(
                "stream",
                vec![],
                JType::Class("java.util.stream.Stream".to_string()),
                vec![]
            )],
            ..Default::default()
        }
    )
}

#[test]
fn relative_source() {
    let result = load_class(
        THROWER_CLASS,
        "ch.emilycares.Thrower".to_string(),
        SourceDestination::RelativeInFolder("/source".to_string()),
    )
    .unwrap();
    assert_eq!(result.source, "/source/ch/emilycares/Thrower.java");
}

#[test]
fn class_file_not_read() {
    let result = load_class(&[1, 2, 3], "a.B".to_string(), SourceDestination::Empty);
    assert!(matches!(result, Err(ClassError::ParseError)));
    let empty_pool = [0xCA, 0xFE, 0xBA, 0xBE, 0, 0, 0, 52, 0, 0, 0, 0];
    let result = load_class(&empty_pool, "a.B".to_string(), SourceDestination::Empty);
    assert!(matches!(result, Err(ClassError::ParseError)));
}

#[test]
fn class_name_trims_package() {
    let result = load_class(SUPER_CLASS, "ch.emilycares.SuperSuper".to_string(), SourceDestination::Empty)
        .unwrap();
    assert_eq!(result.imports[0], ImportUnit::Package("ch.emilycares".to_string()));
}
